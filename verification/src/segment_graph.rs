//! Graph of top-level statement segments, with tag propagation along
//! dependency edges.
use vstd::prelude::*;
use crate::pkgjson_exports::{assoc_find, assoc_index, assoc_insert, lemma_assoc_index, lemma_assoc_index_stable};
use crate::symbols::{ExportedSymbol, ExportedSymbolView, ImportTarget, RawModuleDeps, Segment, Symbol, SymbolView};
use crate::text::{chars_eq, str_chars};

verus! {

/// Globally unique identifier for a segment within the graph.
#[derive(Debug, Clone, Copy, PartialEq, Eq, Structural)]
pub struct SegmentId {
    pub file_id: usize,
    pub segment_idx: usize,
}

impl SegmentId {
    pub fn new(file_id: usize, segment_idx: usize) -> (r: Self)
        ensures
            r.file_id == file_id,
            r.segment_idx == segment_idx,
    {
        Self { file_id, segment_idx }
    }
}

/// Bit flags for segment properties that propagate along edges.
#[derive(Debug, Clone, Copy, PartialEq, Eq, Structural)]
pub struct TagSet(pub u32);

/// `a` holds every bit of `b`.
pub open spec fn tag_contains(a: TagSet, b: TagSet) -> bool {
    a.0 & b.0 == b.0
}

pub proof fn lemma_union_contains(a: TagSet, b: TagSet)
    ensures
        tag_contains(TagSet(a.0 | b.0), b),
        tag_contains(TagSet(a.0 | b.0), a),
        forall|c: TagSet| tag_contains(a, c) ==> tag_contains(TagSet(a.0 | b.0), c),
{
    let x = a.0;
    let y = b.0;
    assert((x | y) & y == y) by (bit_vector);
    assert((x | y) & x == x) by (bit_vector);
    assert forall|c: TagSet| tag_contains(a, c) implies tag_contains(TagSet(a.0 | b.0), c) by {
        let z = c.0;
        assert(x & z == z ==> (x | y) & z == z) by (bit_vector);
    }
}

impl TagSet {
    /// The set with no bit.
    pub fn empty() -> (r: TagSet)
        ensures
            r.0 == 0,
    {
        TagSet(0)
    }

    /// Segment is reachable from an entry point (bit 0).
    pub fn reachable() -> (r: TagSet)
        ensures
            r.0 == 1,
    {
        TagSet(1)
    }

    /// Segment has side effects, or is transitively effectful (bit 1).
    pub fn effectful() -> (r: TagSet)
        ensures
            r.0 == 2,
    {
        TagSet(2)
    }

    pub fn new(bits: u32) -> (r: Self)
        ensures
            r.0 == bits,
    {
        TagSet(bits)
    }

    /// Every bit of `other` is set in `self`.
    pub fn contains(self, other: TagSet) -> (r: bool)
        ensures
            r == tag_contains(self, other),
    {
        self.0 & other.0 == other.0
    }

    /// Sets every bit of `other` in `self`.
    pub fn insert(&mut self, other: TagSet)
        ensures
            final(self).0 == old(self).0 | other.0,
            tag_contains(*final(self), other),
    {
        proof { lemma_union_contains(*old(self), other); }
        self.0 = self.0 | other.0;
    }

    /// The bits of both sets.
    pub fn union(self, other: TagSet) -> (r: TagSet)
        ensures
            r.0 == self.0 | other.0,
            tag_contains(r, other),
            tag_contains(r, self),
    {
        proof { lemma_union_contains(self, other); }
        TagSet(self.0 | other.0)
    }

    /// No bit is set.
    pub fn is_empty(self) -> (r: bool)
        ensures
            r == (self.0 == 0),
    {
        self.0 == 0
    }

    pub fn bits(self) -> (r: u32)
        ensures
            r == self.0,
    {
        self.0
    }
}

/// A node in the segment graph.
#[derive(Debug)]
pub struct SegmentNode {
    pub id: SegmentId,
    pub tags: TagSet,
    /// True if this segment is hoisted (function declarations and imports).
    pub is_hoisted: bool,
}

/// Segment graph: nodes are `(file_id, segment_index)` pairs, edges go from
/// a segment to the segments it depends on.
#[derive(Debug)]
pub struct SegmentGraph {
    pub nodes: Vec<SegmentNode>,
    /// Forward edges: node index -> node indices it depends on, without repeats.
    pub edges: Vec<Vec<usize>>,
    /// For each file, the node of the segment that exports each symbol.
    pub file_export_map: Vec<(usize, Vec<(ExportedSymbol, usize)>)>,
}

/// Every edge stays inside the node range and no edge list repeats a target.
pub open spec fn edges_wf(edges: Seq<Vec<usize>>, n: nat) -> bool {
    &&& edges.len() == n
    &&& forall|i: int, j: int| 0 <= i < n && 0 <= j < edges[i]@.len() ==> edges[i]@[j] < n
    &&& forall|i: int| 0 <= i < n ==> (#[trigger] edges[i]@).no_duplicates()
}

/// Node `i` carries every bit of `tag`.
pub open spec fn node_tagged(nodes: Seq<SegmentNode>, i: int, tag: TagSet) -> bool {
    tag_contains(nodes[i].tags, tag)
}

/// `p` is a nonempty walk along the edges.
pub open spec fn is_walk(edges: Seq<Vec<usize>>, p: Seq<usize>) -> bool {
    &&& p.len() > 0
    &&& forall|k: int| 0 <= k < p.len() ==> (#[trigger] p[k] as int) < edges.len()
    &&& forall|k: int| 0 <= k < p.len() - 1 ==> edges[p[k] as int]@.contains(#[trigger] p[k + 1])
}

/// `v` is reachable by a walk that starts at one of `seeds`.
pub open spec fn reachable_from(edges: Seq<Vec<usize>>, seeds: Seq<usize>, v: usize) -> bool {
    exists|p: Seq<usize>| is_walk(edges, p) && seeds.contains(p[0]) && p.last() == v
}

/// The set of nodes carrying `tag` is closed under the edges.
pub open spec fn tag_closed(nodes: Seq<SegmentNode>, edges: Seq<Vec<usize>>, tag: TagSet) -> bool {
    forall|i: int, j: int|
        0 <= i < nodes.len() && 0 <= j < edges[i]@.len() && #[trigger] node_tagged(nodes, i, tag)
            ==> node_tagged(nodes, #[trigger] edges[i]@[j] as int, tag)
}

/// `after` differs from `before` at most by gaining the bits of `tag`.
pub open spec fn nodes_gain_only(before: Seq<SegmentNode>, after: Seq<SegmentNode>, tag: TagSet) -> bool {
    &&& after.len() == before.len()
    &&& forall|i: int| 0 <= i < before.len() ==> {
        &&& (#[trigger] after[i]).id == before[i].id
        &&& after[i].is_hoisted == before[i].is_hoisted
        &&& (after[i].tags.0 == before[i].tags.0 || after[i].tags.0 == before[i].tags.0 | tag.0)
    }
}

proof fn lemma_distinct_bounded_len(q: Seq<usize>, n: nat)
    requires
        q.no_duplicates(),
        forall|k: int| 0 <= k < q.len() ==> q[k] < n,
    ensures
        q.len() <= n,
{
    let qi = q.map_values(|x: usize| x as int);
    q.lemma_no_duplicates_injective(|x: usize| x as int);
    qi.unique_seq_to_set();
    vstd::set_lib::lemma_int_range(0, n as int);
    assert forall|x: int| qi.to_set().contains(x) implies vstd::set_lib::set_int_range(0, n as int).contains(x) by {
        let k = choose|k: int| 0 <= k < qi.len() && qi[k] == x;
        assert(q[k] < n);
    }
    vstd::set_lib::lemma_len_subset(qi.to_set(), vstd::set_lib::set_int_range(0, n as int));
}


/// Every node whose tag is new in `after` has all its dependencies tagged.
pub open spec fn new_tags_expanded(
    before: Seq<SegmentNode>,
    after: Seq<SegmentNode>,
    edges: Seq<Vec<usize>>,
    tag: TagSet,
) -> bool {
    forall|i: int, j: int|
        0 <= i < after.len() && 0 <= j < edges[i]@.len()
        && #[trigger] node_tagged(after, i, tag) && !node_tagged(before, i, tag)
        ==> node_tagged(after, #[trigger] edges[i]@[j] as int, tag)
}

/// Propagation keeps the tagged set closed: when every tagged node's
/// dependencies were tagged before a propagation, they still are after it.
pub proof fn lemma_propagation_keeps_closure(
    before: Seq<SegmentNode>,
    after: Seq<SegmentNode>,
    edges: Seq<Vec<usize>>,
    tag: TagSet,
)
    requires
        edges_wf(edges, before.len()),
        nodes_gain_only(before, after, tag),
        new_tags_expanded(before, after, edges, tag),
        tag_closed(before, edges, tag),
    ensures
        tag_closed(after, edges, tag),
{
    assert forall|i: int, j: int|
        0 <= i < after.len() && 0 <= j < edges[i]@.len() && #[trigger] node_tagged(after, i, tag)
        implies node_tagged(after, #[trigger] edges[i]@[j] as int, tag) by {
        if node_tagged(before, i, tag) {
            let d = edges[i]@[j] as int;
            assert(node_tagged(before, d, tag));
            lemma_union_contains(before[d].tags, tag);
            assert(after[d].tags.0 == before[d].tags.0 || after[d].tags.0 == before[d].tags.0 | tag.0);
        }
    }
}

proof fn lemma_walk_tagged(nodes: Seq<SegmentNode>, edges: Seq<Vec<usize>>, tag: TagSet, p: Seq<usize>, m: int)
    requires
        edges_wf(edges, nodes.len()),
        tag_closed(nodes, edges, tag),
        is_walk(edges, p),
        node_tagged(nodes, p[0] as int, tag),
        0 <= m < p.len(),
    ensures
        node_tagged(nodes, p[m] as int, tag),
    decreases m,
{
    if m > 0 {
        lemma_walk_tagged(nodes, edges, tag, p, m - 1);
        assert((p[m - 1] as int) < edges.len());
        let k = m - 1;
        assert(edges[p[k] as int]@.contains(p[k + 1]));
        assert(k + 1 == m);
        let e = edges[p[m - 1] as int]@;
        let j = choose|j: int| 0 <= j < e.len() && #[trigger] e[j] == p[m];
        assert(node_tagged(nodes, edges[p[m - 1] as int]@[j] as int, tag));
    }
}

/// With a closed tagged set in which every in-range seed is tagged, every
/// node reachable from a seed is tagged.
pub proof fn lemma_reachable_nodes_tagged(
    nodes: Seq<SegmentNode>,
    edges: Seq<Vec<usize>>,
    seeds: Seq<usize>,
    tag: TagSet,
    v: usize,
)
    requires
        edges_wf(edges, nodes.len()),
        tag_closed(nodes, edges, tag),
        forall|k: int| 0 <= k < seeds.len() && (#[trigger] seeds[k]) < nodes.len()
            ==> node_tagged(nodes, seeds[k] as int, tag),
        reachable_from(edges, seeds, v),
    ensures
        v < nodes.len(),
        node_tagged(nodes, v as int, tag),
{
    let p = choose|p: Seq<usize>| is_walk(edges, p) && seeds.contains(p[0]) && p.last() == v;
    let k0 = choose|k: int| 0 <= k < seeds.len() && seeds[k] == p[0];
    assert((p[0] as int) < edges.len());
    assert(node_tagged(nodes, seeds[k0] as int, tag));
    lemma_walk_tagged(nodes, edges, tag, p, p.len() - 1);
    assert(p[p.len() - 1] == v);
}

/// Propagating a tag that no node carries yet tags exactly the nodes
/// reachable from the in-range seeds: `after` is related to `before` as
/// `propagate_tags` relates its result to the graph it was called on.
pub proof fn law_propagation_tags_exactly_reachable(
    before: Seq<SegmentNode>,
    after: Seq<SegmentNode>,
    edges: Seq<Vec<usize>>,
    seeds: Seq<usize>,
    tag: TagSet,
)
    requires
        before.len() <= usize::MAX,
        edges_wf(edges, before.len()),
        forall|i: int| 0 <= i < before.len() ==> !node_tagged(before, i, tag),
        nodes_gain_only(before, after, tag),
        forall|k: int| 0 <= k < seeds.len() && (#[trigger] seeds[k]) < before.len()
            ==> node_tagged(after, seeds[k] as int, tag),
        new_tags_expanded(before, after, edges, tag),
        forall|v: int| 0 <= v < after.len() && #[trigger] node_tagged(after, v, tag)
            && !node_tagged(before, v, tag) ==> reachable_from(edges, seeds, v as usize),
    ensures
        forall|v: usize| v < before.len() ==>
            (#[trigger] node_tagged(after, v as int, tag) <==> reachable_from(edges, seeds, v)),
{
    assert(tag_closed(before, edges, tag));
    lemma_propagation_keeps_closure(before, after, edges, tag);
    assert forall|v: usize| v < before.len() implies
        (#[trigger] node_tagged(after, v as int, tag) <==> reachable_from(edges, seeds, v)) by {
        if reachable_from(edges, seeds, v) {
            lemma_reachable_nodes_tagged(after, edges, seeds, tag, v);
        }
        if node_tagged(after, v as int, tag) {
            assert(!node_tagged(before, v as int, tag));
        }
    }
}

impl SegmentGraph {
    pub open spec fn wf(&self) -> bool {
        edges_wf(self.edges@, self.nodes@.len())
    }

    /// Get all node indices that do not carry `tag`, in increasing order.
    pub fn nodes_without_tag(&self, tag: TagSet) -> (r: Vec<usize>)
        ensures
            forall|k: int| 0 <= k < r@.len() ==> (#[trigger] r@[k]) < self.nodes@.len()
                && !node_tagged(self.nodes@, r@[k] as int, tag),
            forall|i: int| 0 <= i < self.nodes@.len() && !node_tagged(self.nodes@, i, tag)
                ==> r@.contains(i as usize),
            forall|a: int, b: int| 0 <= a < b < r@.len() ==> r@[a] < r@[b],
    {
        let mut r: Vec<usize> = Vec::new();
        let mut i: usize = 0;
        while i < self.nodes.len()
            invariant
                0 <= i <= self.nodes@.len(),
                forall|k: int| 0 <= k < r@.len() ==> (#[trigger] r@[k]) < i
                    && !node_tagged(self.nodes@, r@[k] as int, tag),
                forall|x: int| 0 <= x < i && !node_tagged(self.nodes@, x, tag)
                    ==> r@.contains(x as usize),
                forall|a: int, b: int| 0 <= a < b < r@.len() ==> r@[a] < r@[b],
            decreases self.nodes@.len() - i,
        {
            if !self.nodes[i].tags.contains(tag) {
                let ghost rb = r@;
                r.push(i);
                assert(r@[r@.len() - 1] == i);
                assert forall|x: int| 0 <= x < i && !node_tagged(self.nodes@, x, tag)
                    implies r@.contains(x as usize) by {
                    let k = choose|k: int| 0 <= k < rb.len() && rb[k] == x as usize;
                    assert(r@[k] == rb[k]);
                }
            }
            i = i + 1;
        }
        r
    }

    /// Get a node by its index.
    pub fn node(&self, idx: usize) -> (r: &SegmentNode)
        requires
            idx < self.nodes@.len(),
        ensures
            *r == self.nodes@[idx as int],
    {
        &self.nodes[idx]
    }

    /// Propagates `tag` from the nodes of the given segment ids; an id with
    /// no node in the graph is skipped.
    pub fn propagate_tags_from_ids(&mut self, seeds: &[SegmentId], tag: TagSet)
        requires
            old(self).wf(),
        ensures
            final(self).wf(),
            final(self).edges@ == old(self).edges@,
            final(self).nodes@.len() == old(self).nodes@.len(),
            nodes_gain_only(old(self).nodes@, final(self).nodes@, tag),
            forall|k: int| 0 <= k < seeds@.len()
                ==> (#[trigger] last_index(node_ids(old(self).nodes@), seeds@[k], old(self).nodes@.len() as int)
                    matches Some(i) ==> node_tagged(final(self).nodes@, i, tag)),
            new_tags_expanded(old(self).nodes@, final(self).nodes@, old(self).edges@, tag),
            forall|v: int| 0 <= v < final(self).nodes@.len()
                && #[trigger] node_tagged(final(self).nodes@, v, tag)
                && !node_tagged(old(self).nodes@, v, tag)
                ==> reachable_from(old(self).edges@,
                    seed_indices(node_ids(old(self).nodes@), seeds@, old(self).nodes@.len() as int), v as usize),
    {
        let ghost ids = node_ids(self.nodes@);
        let len = self.nodes.len();
        let ghost n = len as int;
        let mut indices: Vec<usize> = Vec::new();
        let mut k: usize = 0;
        while k < seeds.len()
            invariant
                0 <= k <= seeds@.len(),
                ids == node_ids(self.nodes@),
                n == self.nodes@.len(),
                indices@ == seed_indices(ids, seeds@.subrange(0, k as int), n),
            decreases seeds@.len() - k,
        {
            assert(seeds@.subrange(0, k + 1).drop_last() =~= seeds@.subrange(0, k as int));
            proof { lemma_last_index_range(ids, seeds@[k as int], n); }
            match self.node_index(&seeds[k]) {
                Some(i) => {
                    proof { lemma_last_index(ids, seeds@[k as int], n, i as int); }
                    indices.push(i);
                },
                None => {
                    proof {
                        if last_index(ids, seeds@[k as int], n) is Some {
                            let i = last_index(ids, seeds@[k as int], n)->0;
                            assert(self.nodes@[i].id == seeds@[k as int]);
                        }
                    }
                },
            }
            k = k + 1;
        }
        assert(seeds@.subrange(0, seeds@.len() as int) =~= seeds@);
        proof { lemma_seed_indices(ids, seeds@, n); }
        let ghost idx = indices@;
        self.propagate_tags(indices.as_slice(), tag);
        assert forall|k: int| 0 <= k < seeds@.len() && (#[trigger] last_index(ids, seeds@[k], n) is Some)
            implies node_tagged(self.nodes@, last_index(ids, seeds@[k], n)->0, tag) by {
            let i = last_index(ids, seeds@[k], n)->0;
            lemma_last_index_range(ids, seeds@[k], n);
            assert(0 <= i < n);
            assert(idx.contains(i as usize));
            let w = choose|w: int| 0 <= w < idx.len() && idx[w] == i as usize;
            assert(idx[w] < n);
            assert(node_tagged(self.nodes@, idx[w] as int, tag));
            assert(idx[w] as int == i);
        }
    }

    /// The index of the last node with the given id, if any.
    pub fn node_index(&self, id: &SegmentId) -> (r: Option<usize>)
        ensures
            match r {
                Some(i) => i < self.nodes@.len() && self.nodes@[i as int].id == *id
                    && forall|k: int| i < k < self.nodes@.len() ==> self.nodes@[k].id != *id,
                None => forall|k: int| 0 <= k < self.nodes@.len() ==> self.nodes@[k].id != *id,
            },
    {
        let mut i: usize = self.nodes.len();
        while i > 0
            invariant
                i <= self.nodes@.len(),
                forall|k: int| i <= k < self.nodes@.len() ==> self.nodes@[k].id != *id,
            decreases i,
        {
            i = i - 1;
            if self.nodes[i].id == *id {
                return Some(i);
            }
        }
        None
    }

    fn tag_node(&mut self, idx: usize, tag: TagSet)
        requires
            idx < old(self).nodes@.len(),
        ensures
            final(self).edges == old(self).edges,
            final(self).nodes@ == old(self).nodes@.update(idx as int, SegmentNode {
                id: old(self).nodes@[idx as int].id,
                tags: TagSet(old(self).nodes@[idx as int].tags.0 | tag.0),
                is_hoisted: old(self).nodes@[idx as int].is_hoisted,
            }),
    {
        let id = self.nodes[idx].id;
        let tags = self.nodes[idx].tags.union(tag);
        let is_hoisted = self.nodes[idx].is_hoisted;
        self.nodes.set(idx, SegmentNode { id, tags, is_hoisted });
    }

    /// Breadth-first propagation of `tag` from `seeds` along the dependency
    /// edges: if a tagged segment depends on another, that one is tagged too.
    /// Nodes that already carry the tag are not expanded.
    pub fn propagate_tags(&mut self, seeds: &[usize], tag: TagSet)
        requires
            old(self).wf(),
        ensures
            final(self).wf(),
            final(self).edges@ == old(self).edges@,
            nodes_gain_only(old(self).nodes@, final(self).nodes@, tag),
            forall|k: int| 0 <= k < seeds@.len() && (#[trigger] seeds@[k]) < old(self).nodes@.len()
                ==> node_tagged(final(self).nodes@, seeds@[k] as int, tag),
            new_tags_expanded(old(self).nodes@, final(self).nodes@, old(self).edges@, tag),
            forall|v: int| 0 <= v < final(self).nodes@.len()
                && #[trigger] node_tagged(final(self).nodes@, v, tag)
                && !node_tagged(old(self).nodes@, v, tag)
                ==> reachable_from(old(self).edges@, seeds@, v as usize),
    {
        let ghost old_nodes = self.nodes@;
        let ghost edges = self.edges@;
        let ghost n = self.nodes@.len();
        assert(n == self.nodes.len());
        let mut queue: Vec<usize> = Vec::new();
        let ghost mut walks: Map<usize, Seq<usize>> = Map::empty();
        let mut s: usize = 0;
        while s < seeds.len()
            invariant
                self.edges@ == edges,
                edges_wf(edges, n),
                n <= usize::MAX,
                self.nodes@.len() == n,
                nodes_gain_only(old_nodes, self.nodes@, tag),
                0 <= s <= seeds@.len(),
                forall|k: int| 0 <= k < s && (#[trigger] seeds@[k]) < n
                    ==> node_tagged(self.nodes@, seeds@[k] as int, tag),
                forall|k: int| 0 <= k < queue@.len() ==> (#[trigger] queue@[k]) < n
                    && node_tagged(self.nodes@, queue@[k] as int, tag)
                    && !node_tagged(old_nodes, queue@[k] as int, tag),
                queue@.no_duplicates(),
                forall|v: int| 0 <= v < n && #[trigger] node_tagged(self.nodes@, v, tag)
                    && !node_tagged(old_nodes, v, tag) ==> queue@.contains(v as usize),
                forall|v: usize| #[trigger] queue@.contains(v) ==> walks.dom().contains(v)
                    && is_walk(edges, walks[v]) && seeds@.contains(walks[v][0]) && walks[v].last() == v,
            decreases seeds@.len() - s,
        {
            let seed = seeds[s];
            if seed < self.nodes.len() && !self.nodes[seed].tags.contains(tag) {
                proof {
                    lemma_union_contains(self.nodes@[seed as int].tags, tag);
                    lemma_union_contains(old_nodes[seed as int].tags, tag);
                }
                let ghost before = self.nodes@;
                let ghost qbefore = queue@;
                self.tag_node(seed, tag);
                proof {
                    assert forall|x: int| 0 <= x < n && x != seed implies self.nodes@[x] == before[x] by {}
                    assert(!qbefore.contains(seed)) by {
                        if qbefore.contains(seed) {
                            let k = choose|k: int| 0 <= k < qbefore.len() && qbefore[k] == seed;
                            assert(node_tagged(before, qbefore[k] as int, tag));
                        }
                    }
                    walks = walks.insert(seed, seq![seed]);
                    assert(seeds@.contains(walks[seed][0])) by { assert(seeds@[s as int] == seed); }
                }
                queue.push(seed);
                proof {
                    assert forall|v: int| 0 <= v < n && #[trigger] node_tagged(self.nodes@, v, tag)
                        && !node_tagged(old_nodes, v, tag) implies queue@.contains(v as usize) by {
                        if v == seed as int {
                            assert(queue@[queue@.len() - 1] == seed);
                        } else {
                            assert(self.nodes@[v] == before[v]);
                            assert(node_tagged(before, v, tag));
                            assert(qbefore.contains(v as usize));
                            let k = choose|k: int| 0 <= k < qbefore.len() && qbefore[k] == v as usize;
                            assert(queue@[k] == qbefore[k]);
                        }
                    }
                }
                proof {
                    assert forall|v: usize| #[trigger] queue@.contains(v) implies walks.dom().contains(v)
                        && is_walk(edges, walks[v]) && seeds@.contains(walks[v][0]) && walks[v].last() == v by {
                        let k = choose|k: int| 0 <= k < queue@.len() && queue@[k] == v;
                        if k < queue@.len() - 1 {
                            assert(qbefore[k] == v);
                            assert(qbefore.contains(v));
                        }
                    }
                }
            }
            s = s + 1;
        }
        let mut head: usize = 0;
        while head < queue.len()
            invariant
                self.edges@ == edges,
                edges_wf(edges, n),
                n <= usize::MAX,
                self.nodes@.len() == n,
                nodes_gain_only(old_nodes, self.nodes@, tag),
                0 <= head <= queue@.len(),
                forall|k: int| 0 <= k < seeds@.len() && (#[trigger] seeds@[k]) < n
                    ==> node_tagged(self.nodes@, seeds@[k] as int, tag),
                forall|k: int| 0 <= k < queue@.len() ==> (#[trigger] queue@[k]) < n
                    && node_tagged(self.nodes@, queue@[k] as int, tag)
                    && !node_tagged(old_nodes, queue@[k] as int, tag),
                queue@.no_duplicates(),
                forall|v: int| 0 <= v < n && #[trigger] node_tagged(self.nodes@, v, tag)
                    && !node_tagged(old_nodes, v, tag) ==> queue@.contains(v as usize),
                forall|k: int, j: int| 0 <= k < head && 0 <= j < edges[queue@[k] as int]@.len()
                    ==> node_tagged(self.nodes@, #[trigger] edges[#[trigger] queue@[k] as int]@[j] as int, tag),
                forall|v: usize| #[trigger] queue@.contains(v) ==> walks.dom().contains(v)
                    && is_walk(edges, walks[v]) && seeds@.contains(walks[v][0]) && walks[v].last() == v,
            decreases n - head,
        {
            proof { lemma_distinct_bounded_len(queue@, n); }
            let node_idx = queue[head];
            let deps: Vec<usize> = self.edges[node_idx].clone();
            assert(deps@ == edges[node_idx as int]@);
            let mut d: usize = 0;
            while d < deps.len()
                invariant
                    self.edges@ == edges,
                    edges_wf(edges, n),
                    n <= usize::MAX,
                    self.nodes@.len() == n,
                    nodes_gain_only(old_nodes, self.nodes@, tag),
                    head < queue@.len(),
                    queue@[head as int] == node_idx,
                    node_idx < n,
                    deps@ == edges[node_idx as int]@,
                    0 <= d <= deps@.len(),
                    forall|k: int| 0 <= k < seeds@.len() && (#[trigger] seeds@[k]) < n
                        ==> node_tagged(self.nodes@, seeds@[k] as int, tag),
                    forall|k: int| 0 <= k < queue@.len() ==> (#[trigger] queue@[k]) < n
                        && node_tagged(self.nodes@, queue@[k] as int, tag)
                        && !node_tagged(old_nodes, queue@[k] as int, tag),
                    queue@.no_duplicates(),
                    forall|v: int| 0 <= v < n && #[trigger] node_tagged(self.nodes@, v, tag)
                        && !node_tagged(old_nodes, v, tag) ==> queue@.contains(v as usize),
                    forall|k: int, j: int| 0 <= k < head && 0 <= j < edges[queue@[k] as int]@.len()
                        ==> node_tagged(self.nodes@, #[trigger] edges[#[trigger] queue@[k] as int]@[j] as int, tag),
                    forall|j: int| 0 <= j < d ==> node_tagged(self.nodes@, #[trigger] deps@[j] as int, tag),
                    forall|v: usize| #[trigger] queue@.contains(v) ==> walks.dom().contains(v)
                        && is_walk(edges, walks[v]) && seeds@.contains(walks[v][0]) && walks[v].last() == v,
                decreases deps@.len() - d,
            {
                let dep_idx = deps[d];
                if !self.nodes[dep_idx].tags.contains(tag) {
                    proof {
                        lemma_union_contains(self.nodes@[dep_idx as int].tags, tag);
                        lemma_union_contains(old_nodes[dep_idx as int].tags, tag);
                    }
                    let ghost before = self.nodes@;
                    let ghost qbefore = queue@;
                    self.tag_node(dep_idx, tag);
                    proof {
                        assert forall|x: int| 0 <= x < n && x != dep_idx implies self.nodes@[x] == before[x] by {}
                        assert(!qbefore.contains(dep_idx)) by {
                            if qbefore.contains(dep_idx) {
                                let k = choose|k: int| 0 <= k < qbefore.len() && qbefore[k] == dep_idx;
                                assert(node_tagged(before, qbefore[k] as int, tag));
                            }
                        }
                        assert(qbefore.contains(node_idx)) by { assert(qbefore[head as int] == node_idx); }
                        let w = walks[node_idx].push(dep_idx);
                        assert(edges[node_idx as int]@.contains(dep_idx)) by { assert(edges[node_idx as int]@[d as int] == dep_idx); }
                        assert(is_walk(edges, w)) by {
                            assert forall|k: int| 0 <= k < w.len() - 1 implies edges[w[k] as int]@.contains(#[trigger] w[k + 1]) by {
                                if k < w.len() - 2 {
                                    assert(w[k] == walks[node_idx][k]);
                                    assert(w[k + 1] == walks[node_idx][k + 1]);
                                } else {
                                    assert(w[k] == walks[node_idx].last());
                                }
                            }
                        }
                        walks = walks.insert(dep_idx, w);
                    }
                    queue.push(dep_idx);
                    proof {
                        assert forall|v: int| 0 <= v < n && #[trigger] node_tagged(self.nodes@, v, tag)
                            && !node_tagged(old_nodes, v, tag) implies queue@.contains(v as usize) by {
                            if v == dep_idx as int {
                                assert(queue@[queue@.len() - 1] == dep_idx);
                            } else {
                                assert(self.nodes@[v] == before[v]);
                                assert(node_tagged(before, v, tag));
                                assert(qbefore.contains(v as usize));
                                let k = choose|k: int| 0 <= k < qbefore.len() && qbefore[k] == v as usize;
                                assert(queue@[k] == qbefore[k]);
                            }
                        }
                    }
                    proof {
                        assert forall|v: usize| #[trigger] queue@.contains(v) implies walks.dom().contains(v)
                            && is_walk(edges, walks[v]) && seeds@.contains(walks[v][0]) && walks[v].last() == v by {
                            let k = choose|k: int| 0 <= k < queue@.len() && queue@[k] == v;
                            if k < queue@.len() - 1 {
                                assert(qbefore[k] == v);
                                assert(qbefore.contains(v));
                            }
                        }
                    }
                }
                d = d + 1;
            }
            head = head + 1;
        }
        proof {
            assert forall|i: int, j: int|
                0 <= i < n && 0 <= j < edges[i]@.len()
                && #[trigger] node_tagged(self.nodes@, i, tag)
                && !node_tagged(old_nodes, i, tag)
                implies node_tagged(self.nodes@, #[trigger] edges[i]@[j] as int, tag) by {
                assert(queue@.contains(i as usize));
                let k = choose|k: int| 0 <= k < queue@.len() && queue@[k] == i as usize;
                assert(edges[queue@[k] as int]@[j] == edges[i]@[j]);
            }
            assert forall|v: int| 0 <= v < n && #[trigger] node_tagged(self.nodes@, v, tag)
                && !node_tagged(old_nodes, v, tag) implies reachable_from(edges, seeds@, v as usize) by {
                assert(queue@.contains(v as usize));
                let w = walks[v as usize];
                assert(is_walk(edges, w) && seeds@.contains(w[0]) && w.last() == v as usize);
            }
        }
    }
}


// ---------------------------------------------------------------------
// Building the graph
// ---------------------------------------------------------------------

/// The targets of node `x`.
pub open spec fn node_targets(edges: Seq<Vec<usize>>, x: int) -> Set<int> {
    Set::new(|t: int| exists|k: int| 0 <= k < edges[x]@.len() && edges[x]@[k] as int == t)
}

/// The edges as `(from, to)` pairs.
pub open spec fn edge_pairs(edges: Seq<Vec<usize>>) -> Set<(int, int)> {
    Set::new(|p: (int, int)| 0 <= p.0 < edges.len() && node_targets(edges, p.0).contains(p.1))
}

/// A statement that is an import or re-export declaration is hoisted.
pub open spec fn segment_hoisted(seg: Segment) -> bool {
    seg.module_deps.imports@.len() > 0 || seg.module_deps.exports_from@.len() > 0
        || seg.module_deps.executed_paths@.len() > 0
}

/// Whether a segment is hoisted: it imports, re-exports or executes
/// another module.
pub fn segment_is_hoisted(seg: &Segment) -> (r: bool)
    ensures
        r == segment_hoisted(*seg),
{
    seg.module_deps.imports.len() > 0 || seg.module_deps.exports_from.len() > 0
        || seg.module_deps.executed_paths.len() > 0
}

/// The ids of the nodes of the first `e` files, in order.
pub open spec fn flat_ids(fs: Seq<(usize, &[Segment])>, e: int) -> Seq<SegmentId>
    decreases e,
{
    if e <= 0 {
        Seq::empty()
    } else {
        flat_ids(fs, e - 1) + Seq::new(fs[e - 1].1@.len(), |j: int| SegmentId { file_id: fs[e - 1].0, segment_idx: j as usize })
    }
}

/// Whether the nodes of the first `e` files are hoisted, in order.
pub open spec fn flat_hoisted(fs: Seq<(usize, &[Segment])>, e: int) -> Seq<bool>
    decreases e,
{
    if e <= 0 {
        Seq::empty()
    } else {
        flat_hoisted(fs, e - 1) + Seq::new(fs[e - 1].1@.len(), |j: int| segment_hoisted(fs[e - 1].1@[j]))
    }
}

pub proof fn lemma_flat_lens(fs: Seq<(usize, &[Segment])>, e: int)
    ensures
        flat_ids(fs, e).len() == flat_hoisted(fs, e).len(),
    decreases e,
{
    if e > 0 {
        lemma_flat_lens(fs, e - 1);
    }
}

/// The last node (among the first `n`) with the given id.
pub open spec fn last_index(ids: Seq<SegmentId>, id: SegmentId, n: int) -> Option<int>
    decreases n,
{
    if n <= 0 {
        None
    } else if ids[n - 1] == id {
        Some(n - 1)
    } else {
        last_index(ids, id, n - 1)
    }
}

/// The node indices of the given segment ids, in order, skipping ids that
/// have no node among the first `n`.
pub open spec fn seed_indices(ids: Seq<SegmentId>, seeds: Seq<SegmentId>, n: int) -> Seq<usize>
    decreases seeds.len(),
{
    if seeds.len() == 0 {
        Seq::empty()
    } else {
        let rest = seed_indices(ids, seeds.drop_last(), n);
        match last_index(ids, seeds.last(), n) {
            Some(i) => rest.push(i as usize),
            None => rest,
        }
    }
}

pub proof fn lemma_seed_indices(ids: Seq<SegmentId>, seeds: Seq<SegmentId>, n: int)
    requires
        0 <= n <= ids.len(),
    ensures
        forall|k: int| 0 <= k < seeds.len() ==> (#[trigger] last_index(ids, seeds[k], n) matches Some(i)
            ==> seed_indices(ids, seeds, n).contains(i as usize)),
        forall|k: int| 0 <= k < seed_indices(ids, seeds, n).len() ==> #[trigger] seed_indices(ids, seeds, n)[k] < n,
    decreases seeds.len(),
{
    if seeds.len() > 0 {
        lemma_seed_indices(ids, seeds.drop_last(), n);
        lemma_last_index_range(ids, seeds.last(), n);
        let rest = seed_indices(ids, seeds.drop_last(), n);
        let all = seed_indices(ids, seeds, n);
        assert forall|k: int| 0 <= k < seeds.len() implies (#[trigger] last_index(ids, seeds[k], n) matches Some(i)
            ==> all.contains(i as usize)) by {
            let i = last_index(ids, seeds[k], n)->0;
            if !(last_index(ids, seeds[k], n) is Some) {
            } else if k < seeds.len() - 1 {
                assert(seeds.drop_last()[k] == seeds[k]);
                assert(rest.contains(i as usize));
                let w = choose|w: int| 0 <= w < rest.len() && rest[w] == i as usize;
                assert(all[w] == rest[w]);
            } else {
                assert(all[all.len() - 1] == i as usize);
            }
        }
    }
}

pub proof fn lemma_last_index(ids: Seq<SegmentId>, id: SegmentId, n: int, i: int)
    requires
        0 <= i < n <= ids.len(),
        ids[i] == id,
        forall|k: int| i < k < n ==> ids[k] != id,
    ensures
        last_index(ids, id, n) == Some(i),
    decreases n,
{
    if n - 1 > i {
        lemma_last_index(ids, id, n - 1, i);
    }
}

pub proof fn lemma_last_index_range(ids: Seq<SegmentId>, id: SegmentId, n: int)
    requires
        0 <= n <= ids.len(),
    ensures
        last_index(ids, id, n) matches Some(i) ==> 0 <= i < n && ids[i] == id,
    decreases n,
{
    if n > 0 {
        lemma_last_index_range(ids, id, n - 1);
    }
}

pub open spec fn node_ids(nodes: Seq<SegmentNode>) -> Seq<SegmentId> {
    nodes.map_values(|n: SegmentNode| n.id)
}

pub open spec fn node_hoisted(nodes: Seq<SegmentNode>) -> Seq<bool> {
    nodes.map_values(|n: SegmentNode| n.is_hoisted)
}

/// The execution-order edges of one file from its `j`-th segment on: each
/// segment that is not hoisted depends on the previous one that is not.
pub open spec fn chain_pairs(ids: Seq<SegmentId>, hoisted: Seq<bool>, f: usize, c: int, j: int, prev: Option<int>) -> Set<(int, int)>
    decreases c - j,
{
    if j >= c {
        Set::empty()
    } else {
        let n = last_index(ids, SegmentId { file_id: f, segment_idx: j as usize }, ids.len() as int)->0;
        if !hoisted[n] {
            let here = match prev {
                Some(p) => set![(n, p)],
                None => Set::empty(),
            };
            here.union(chain_pairs(ids, hoisted, f, c, j + 1, Some(n)))
        } else {
            chain_pairs(ids, hoisted, f, c, j + 1, prev)
        }
    }
}

/// The execution-order edges of the first `e` files.
pub open spec fn effect_pairs(fs: Seq<(usize, &[Segment])>, ids: Seq<SegmentId>, hoisted: Seq<bool>, e: int) -> Set<(int, int)>
    decreases e,
{
    if e <= 0 {
        Set::empty()
    } else {
        effect_pairs(fs, ids, hoisted, e - 1).union(chain_pairs(ids, hoisted, fs[e - 1].0, fs[e - 1].1@.len() as int, 0, None))
    }
}

/// Exported names of a file to the nodes that export them.
pub type ExportsView = Seq<(ExportedSymbolView, usize)>;

pub open spec fn exports_view(v: Seq<(ExportedSymbol, usize)>) -> ExportsView {
    v.map_values(|p: (ExportedSymbol, usize)| (p.0@, p.1))
}

pub open spec fn export_map_view(v: Seq<(usize, Vec<(ExportedSymbol, usize)>)>) -> Seq<(usize, ExportsView)> {
    v.map_values(|e: (usize, Vec<(ExportedSymbol, usize)>)| (e.0, exports_view(e.1@)))
}

pub open spec fn locals_insert(m: ExportsView, locals: Seq<(ExportedSymbol, crate::symbols::TaggedSymbol)>, node: usize, n: int) -> ExportsView
    decreases n,
{
    if n <= 0 {
        m
    } else {
        assoc_insert(locals_insert(m, locals, node, n - 1), locals[n - 1].0@, node)
    }
}

/// The name a re-export is seen under: its rename, else the symbol it
/// imports; none for a namespace re-exported without a name.
pub open spec fn reexport_name(r: crate::symbols::ReExportedSymbol) -> Option<ExportedSymbolView> {
    match r.exported_as {
        Some(x) => Some(x@),
        None => match r.imported_as {
            ImportTarget::ExportedSymbol(s) => Some(s@),
            ImportTarget::Namespace => None,
        },
    }
}

pub open spec fn reexports_insert(m: ExportsView, items: Seq<crate::symbols::ReExportedSymbol>, node: usize, n: int) -> ExportsView
    decreases n,
{
    if n <= 0 {
        m
    } else {
        let m2 = reexports_insert(m, items, node, n - 1);
        match reexport_name(items[n - 1]) {
            Some(x) => assoc_insert(m2, x, node),
            None => m2,
        }
    }
}

pub open spec fn groups_insert(m: ExportsView, groups: Seq<(String, Vec<crate::symbols::ReExportedSymbol>)>, node: usize, n: int) -> ExportsView
    decreases n,
{
    if n <= 0 {
        m
    } else {
        let g = groups[n - 1].1@;
        reexports_insert(groups_insert(m, groups, node, n - 1), g, node, g.len() as int)
    }
}

/// The exports of a file after the segment at `node`: its exported
/// locals, then its re-exports, each replacing an earlier export of the
/// same name.
pub open spec fn segment_exports(m: ExportsView, seg: Segment, node: usize) -> ExportsView {
    let d = seg.module_deps;
    groups_insert(locals_insert(m, d.exports_locals@, node, d.exports_locals@.len() as int), d.exports_from@, node, d.exports_from@.len() as int)
}

/// The exports of the first `n` segments of a file whose first node is
/// `base`.
pub open spec fn file_exports(segs: Seq<Segment>, base: int, n: int) -> ExportsView
    decreases n,
{
    if n <= 0 {
        Seq::empty()
    } else {
        segment_exports(file_exports(segs, base, n - 1), segs[n - 1], (base + n - 1) as usize)
    }
}

/// The export map after the first `e` files (a later file with the same
/// id replaces an earlier one).
pub open spec fn export_map(fs: Seq<(usize, &[Segment])>, e: int) -> Seq<(usize, ExportsView)>
    decreases e,
{
    if e <= 0 {
        Seq::empty()
    } else {
        assoc_insert(export_map(fs, e - 1), fs[e - 1].0, file_exports(fs[e - 1].1@, flat_ids(fs, e - 1).len() as int, fs[e - 1].1@.len() as int))
    }
}

/// The node that exports `x` in `m`, if any.
pub open spec fn export_node(m: ExportsView, x: ExportedSymbolView) -> Option<usize> {
    match assoc_find(m, x) {
        Some(i) => Some(m[i].1),
        None => None,
    }
}

proof fn lemma_export_node_insert(m: ExportsView, y: ExportedSymbolView, v: usize, x: ExportedSymbolView)
    ensures
        export_node(assoc_insert(m, y, v), x) == if x == y { Some(v) } else { export_node(m, x) },
{
    let m2 = assoc_insert(m, y, v);
    lemma_assoc_index(m, x, m.len() as int);
    lemma_assoc_index(m, y, m.len() as int);
    lemma_assoc_index(m2, x, m2.len() as int);
    match assoc_find(m, y) {
        Some(i) => {
            assert(m2[i].0 == y);
            if x == y {
                if let Some(k) = assoc_find(m2, x) {
                    assert(!(k < i));
                    assert(!(k > i));
                }
            } else {
                match assoc_find(m, x) {
                    Some(k) => {
                        assert(m2[k].0 == x);
                        if let Some(k2) = assoc_find(m2, x) {
                            assert(!(k2 < k)) by {
                                if k2 < k { assert(m[k2].0 == m2[k2].0); }
                            }
                            assert(!(k2 > k));
                        }
                    },
                    None => {
                        if let Some(k2) = assoc_find(m2, x) {
                            assert(m[k2].0 == m2[k2].0);
                        }
                    },
                }
            }
        },
        None => {
            assert(m2[m.len() as int].0 == y);
            if x == y {
                if let Some(k) = assoc_find(m2, x) {
                    assert(!(k < m.len()));
                }
            } else {
                match assoc_find(m, x) {
                    Some(k) => {
                        assert(m2[k].0 == x);
                        if let Some(k2) = assoc_find(m2, x) {
                            assert(!(k2 < k)) by {
                                if k2 < k { assert(m[k2].0 == m2[k2].0); }
                            }
                            assert(!(k2 > k));
                        }
                    },
                    None => {
                        if let Some(k2) = assoc_find(m2, x) {
                            assert(k2 < m.len());
                            assert(m[k2].0 == m2[k2].0);
                        }
                    },
                }
            }
        },
    }
}

proof fn lemma_locals_keep(m: ExportsView, locals: Seq<(ExportedSymbol, crate::symbols::TaggedSymbol)>, node: usize, n: int, x: ExportedSymbolView)
    requires
        export_node(m, x) == Some(node),
    ensures
        export_node(locals_insert(m, locals, node, n), x) == Some(node),
    decreases n,
{
    if n > 0 {
        lemma_locals_keep(m, locals, node, n - 1, x);
        lemma_export_node_insert(locals_insert(m, locals, node, n - 1), locals[n - 1].0@, node, x);
    }
}

proof fn lemma_locals_has(m: ExportsView, locals: Seq<(ExportedSymbol, crate::symbols::TaggedSymbol)>, node: usize, n: int, k: int)
    requires
        0 <= k < n,
    ensures
        export_node(locals_insert(m, locals, node, n), locals[k].0@) == Some(node),
    decreases n,
{
    let x = locals[k].0@;
    if k < n - 1 {
        lemma_locals_has(m, locals, node, n - 1, k);
    }
    lemma_export_node_insert(locals_insert(m, locals, node, n - 1), locals[n - 1].0@, node, x);
}

/// The name that importers of the file see for re-export `r`, if it
/// gives one: the rename, or else the imported symbol.
pub open spec fn seen_name(r: crate::symbols::ReExportedSymbol) -> Option<ExportedSymbolView> {
    match (r.exported_as, r.imported_as) {
        (Some(x), _) => Some(x@),
        (None, ImportTarget::ExportedSymbol(s)) => Some(s@),
        (None, ImportTarget::Namespace) => None,
    }
}

proof fn lemma_reexports_keep(m: ExportsView, items: Seq<crate::symbols::ReExportedSymbol>, node: usize, n: int, x: ExportedSymbolView)
    requires
        export_node(m, x) == Some(node),
    ensures
        export_node(reexports_insert(m, items, node, n), x) == Some(node),
    decreases n,
{
    if n > 0 {
        lemma_reexports_keep(m, items, node, n - 1, x);
        if let Some(y) = reexport_name(items[n - 1]) {
            lemma_export_node_insert(reexports_insert(m, items, node, n - 1), y, node, x);
        }
    }
}

proof fn lemma_reexports_has(m: ExportsView, items: Seq<crate::symbols::ReExportedSymbol>, node: usize, n: int, k: int)
    requires
        0 <= k < n,
    ensures
        seen_name(items[k]) matches Some(x) ==> export_node(reexports_insert(m, items, node, n), x) == Some(node),
    decreases n,
{
    if let Some(x) = seen_name(items[k]) {
        let m2 = reexports_insert(m, items, node, n - 1);
        if k < n - 1 {
            lemma_reexports_has(m, items, node, n - 1, k);
            if let Some(y) = reexport_name(items[n - 1]) {
                lemma_export_node_insert(m2, y, node, x);
            }
        } else {
            lemma_export_node_insert(m2, x, node, x);
        }
    }
}

proof fn lemma_groups_keep(m: ExportsView, groups: Seq<(String, Vec<crate::symbols::ReExportedSymbol>)>, node: usize, n: int, x: ExportedSymbolView)
    requires
        export_node(m, x) == Some(node),
    ensures
        export_node(groups_insert(m, groups, node, n), x) == Some(node),
    decreases n,
{
    if n > 0 {
        lemma_groups_keep(m, groups, node, n - 1, x);
        let g = groups[n - 1].1@;
        lemma_reexports_keep(groups_insert(m, groups, node, n - 1), g, node, g.len() as int, x);
    }
}

proof fn lemma_groups_has(m: ExportsView, groups: Seq<(String, Vec<crate::symbols::ReExportedSymbol>)>, node: usize, n: int, g: int, k: int)
    requires
        0 <= g < n,
        0 <= k < groups[g].1@.len(),
    ensures
        seen_name(groups[g].1@[k]) matches Some(x) ==> export_node(groups_insert(m, groups, node, n), x) == Some(node),
    decreases n,
{
    if let Some(x) = seen_name(groups[g].1@[k]) {
        let last = groups[n - 1].1@;
        if g < n - 1 {
            lemma_groups_has(m, groups, node, n - 1, g, k);
            lemma_reexports_keep(groups_insert(m, groups, node, n - 1), last, node, last.len() as int, x);
        } else {
            lemma_reexports_has(groups_insert(m, groups, node, n - 1), last, node, last.len() as int, k);
        }
    }
}

/// After a segment is recorded, each name it exports is exported at its
/// node: an exported local under its exported name, a re-export under its
/// rename when it has one (`export { a as b } from ..` is seen as `b`),
/// else under the symbol it re-exports.
pub proof fn law_segment_exports_are_seen_at_its_node(m: ExportsView, seg: Segment, node: usize)
    ensures
        forall|k: int| 0 <= k < seg.module_deps.exports_locals@.len()
            ==> export_node(segment_exports(m, seg, node), (#[trigger] seg.module_deps.exports_locals@[k]).0@) == Some(node),
        forall|g: int, k: int| 0 <= g < seg.module_deps.exports_from@.len() && 0 <= k < seg.module_deps.exports_from@[g].1@.len()
            ==> match (#[trigger] seg.module_deps.exports_from@[g].1@[k]).exported_as {
                Some(x) => export_node(segment_exports(m, seg, node), x@) == Some(node),
                None => seg.module_deps.exports_from@[g].1@[k].imported_as matches ImportTarget::ExportedSymbol(s)
                    ==> export_node(segment_exports(m, seg, node), s@) == Some(node),
            },
{
    let d = seg.module_deps;
    let lm = locals_insert(m, d.exports_locals@, node, d.exports_locals@.len() as int);
    assert forall|k: int| 0 <= k < d.exports_locals@.len()
        implies export_node(segment_exports(m, seg, node), (#[trigger] d.exports_locals@[k]).0@) == Some(node) by {
        lemma_locals_has(m, d.exports_locals@, node, d.exports_locals@.len() as int, k);
        lemma_groups_keep(lm, d.exports_from@, node, d.exports_from@.len() as int, d.exports_locals@[k].0@);
    }
    assert forall|g: int, k: int| 0 <= g < d.exports_from@.len() && 0 <= k < d.exports_from@[g].1@.len()
        implies match (#[trigger] d.exports_from@[g].1@[k]).exported_as {
            Some(x) => export_node(segment_exports(m, seg, node), x@) == Some(node),
            None => d.exports_from@[g].1@[k].imported_as matches ImportTarget::ExportedSymbol(s)
                ==> export_node(segment_exports(m, seg, node), s@) == Some(node),
        } by {
        lemma_groups_has(lm, d.exports_from@, node, d.exports_from@.len() as int, g, k);
    }
}

/// Every export of the map names a node below `n`.
pub open spec fn exports_in_range(m: Seq<(usize, Vec<(ExportedSymbol, usize)>)>, n: nat) -> bool {
    forall|a: int, b: int| 0 <= a < m.len() && 0 <= b < m[a].1@.len() ==> (#[trigger] m[a].1@[b]).1 < n
}

pub proof fn lemma_map_push<A, B>(s: Seq<A>, x: A, f: spec_fn(A) -> B)
    ensures
        s.push(x).map_values(f) =~= s.map_values(f).push(f(x)),
{
}

/// Stores `node` as the exporter of `k`.
fn exports_insert(m: &mut Vec<(ExportedSymbol, usize)>, k: ExportedSymbol, node: usize)
    ensures
        exports_view(final(m)@) == assoc_insert(exports_view(old(m)@), k@, node),
        forall|b: int| 0 <= b < final(m)@.len() ==> (#[trigger] final(m)@[b]).1 == node
            || exists|c: int| 0 <= c < old(m)@.len() && old(m)@[c].1 == final(m)@[b].1,
{
    let ghost v0 = exports_view(m@);
    let ghost m0 = m@;
    let ghost kv = k@;
    let mut i: usize = 0;
    while i < m.len()
        invariant
            m@ == m0,
            m0 == old(m)@,
            kv == k@,
            v0 == exports_view(m@),
            0 <= i <= m@.len(),
            assoc_index(v0, kv, i as int) is None,
        decreases m@.len() - i,
    {
        assert(v0[i as int] == (m@[i as int].0@, m@[i as int].1));
        let same = m[i].0.same_as(&k);
        if same {
            assert(m@[i as int].0@ == k@);
            assert(v0[i as int].0 == kv);
            assert(assoc_index(v0, kv, i + 1) == Some(i as int));
            proof { lemma_assoc_index_stable(v0, kv, i + 1, v0.len() as int); }
            m.set(i, (k, node));
            assert(exports_view(m@) =~= v0.update(i as int, (kv, node)));
            assert forall|b: int| 0 <= b < m@.len() implies (#[trigger] m@[b]).1 == node
                || exists|c: int| 0 <= c < m0.len() && m0[c].1 == m@[b].1 by {
                if b != i {
                    assert(m0[b].1 == m@[b].1);
                }
            }
            return;
        }
        i = i + 1;
    }
    m.push((k, node));
    assert(exports_view(m@) =~= v0.push((kv, node)));
    assert forall|b: int| 0 <= b < m@.len() implies (#[trigger] m@[b]).1 == node
        || exists|c: int| 0 <= c < m0.len() && m0[c].1 == m@[b].1 by {
        if b < m0.len() {
            assert(m0[b].1 == m@[b].1);
        }
    }
}

/// Records the exports of a segment.
fn add_segment_exports(m: &mut Vec<(ExportedSymbol, usize)>, seg: &Segment, node: usize)
    ensures
        exports_view(final(m)@) == segment_exports(exports_view(old(m)@), *seg, node),
        forall|b: int| 0 <= b < final(m)@.len() ==> (#[trigger] final(m)@[b]).1 == node
            || exists|c: int| 0 <= c < old(m)@.len() && old(m)@[c].1 == final(m)@[b].1,
{
    let ghost m0 = m@;
    let d = &seg.module_deps;
    let mut i: usize = 0;
    while i < d.exports_locals.len()
        invariant
            0 <= i <= d.exports_locals@.len(),
            exports_view(m@) == locals_insert(exports_view(m0), d.exports_locals@, node, i as int),
            forall|b: int| 0 <= b < m@.len() ==> (#[trigger] m@[b]).1 == node
                || exists|c: int| 0 <= c < m0.len() && m0[c].1 == m@[b].1,
        decreases d.exports_locals@.len() - i,
    {
        let ghost mb = m@;
        exports_insert(m, d.exports_locals[i].0.duplicate(), node);
        assert forall|b: int| 0 <= b < m@.len() implies (#[trigger] m@[b]).1 == node
            || exists|c: int| 0 <= c < m0.len() && m0[c].1 == m@[b].1 by {
            if m@[b].1 != node {
                let c1 = choose|c: int| 0 <= c < mb.len() && mb[c].1 == m@[b].1;
                assert(mb[c1].1 == node || exists|c: int| 0 <= c < m0.len() && m0[c].1 == mb[c1].1);
            }
        }
        i = i + 1;
    }
    let ghost after_locals = exports_view(m@);
    let mut g: usize = 0;
    while g < d.exports_from.len()
        invariant
            0 <= g <= d.exports_from@.len(),
            exports_view(m@) == groups_insert(after_locals, d.exports_from@, node, g as int),
            forall|b: int| 0 <= b < m@.len() ==> (#[trigger] m@[b]).1 == node
                || exists|c: int| 0 <= c < m0.len() && m0[c].1 == m@[b].1,
        decreases d.exports_from@.len() - g,
    {
        let items = &d.exports_from[g].1;
        let ghost start = exports_view(m@);
        let mut r: usize = 0;
        while r < items.len()
            invariant
                0 <= r <= items@.len(),
                exports_view(m@) == reexports_insert(start, items@, node, r as int),
                forall|b: int| 0 <= b < m@.len() ==> (#[trigger] m@[b]).1 == node
                    || exists|c: int| 0 <= c < m0.len() && m0[c].1 == m@[b].1,
            decreases items@.len() - r,
        {
            let item = &items[r];
            let name: Option<ExportedSymbol> = match &item.exported_as {
                Some(x) => Some(x.duplicate()),
                None => match &item.imported_as {
                    ImportTarget::ExportedSymbol(sym) => Some(sym.duplicate()),
                    ImportTarget::Namespace => None,
                },
            };
            match name {
                Some(x) => {
                    let ghost mb = m@;
                    exports_insert(m, x, node);
                    assert forall|b: int| 0 <= b < m@.len() implies (#[trigger] m@[b]).1 == node
                        || exists|c: int| 0 <= c < m0.len() && m0[c].1 == m@[b].1 by {
                        if m@[b].1 != node {
                            let c1 = choose|c: int| 0 <= c < mb.len() && mb[c].1 == m@[b].1;
                            assert(mb[c1].1 == node || exists|c: int| 0 <= c < m0.len() && m0[c].1 == mb[c1].1);
                        }
                    }
                },
                None => {},
            }
            r = r + 1;
        }
        g = g + 1;
    }
}


pub proof fn lemma_last_index_exists(ids: Seq<SegmentId>, id: SegmentId, n: int, k: int)
    requires
        0 <= k < n <= ids.len(),
        ids[k] == id,
    ensures
        last_index(ids, id, n) is Some,
    decreases n,
{
    if ids[n - 1] != id {
        lemma_last_index_exists(ids, id, n - 1, k);
    }
}

pub proof fn lemma_flat_ids_len(fs: Seq<(usize, &[Segment])>, e: int, f: int)
    requires
        0 <= e <= f <= fs.len(),
    ensures
        flat_ids(fs, e).len() <= flat_ids(fs, f).len(),
        e < f ==> flat_ids(fs, e).len() + fs[e].1@.len() <= flat_ids(fs, f).len(),
    decreases f - e,
{
    if e < f {
        lemma_flat_ids_len(fs, e + 1, f);
    }
}

pub proof fn lemma_flat_ids_prefix(fs: Seq<(usize, &[Segment])>, e: int, f: int, k: int)
    requires
        0 <= e <= f <= fs.len(),
        0 <= k < flat_ids(fs, e).len(),
    ensures
        k < flat_ids(fs, f).len(),
        flat_ids(fs, f)[k] == flat_ids(fs, e)[k],
        flat_hoisted(fs, f)[k] == flat_hoisted(fs, e)[k],
    decreases f - e,
{
    lemma_flat_lens(fs, e);
    lemma_flat_lens(fs, f);
    if e < f {
        lemma_flat_ids_prefix(fs, e, f - 1, k);
        lemma_flat_lens(fs, f - 1);
    }
}

pub open spec fn opt_idx(p: Option<usize>) -> Option<int> {
    match p {
        Some(x) => Some(x as int),
        None => None,
    }
}

/// Stores the exports of file `f`, replacing earlier ones of the same file.
fn export_map_insert(m: &mut Vec<(usize, Vec<(ExportedSymbol, usize)>)>, f: usize, fe: Vec<(ExportedSymbol, usize)>, n: Ghost<nat>)
    requires
        exports_in_range(old(m)@, n@),
        forall|b: int| 0 <= b < fe@.len() ==> (#[trigger] fe@[b]).1 < n@,
    ensures
        export_map_view(final(m)@) == assoc_insert(export_map_view(old(m)@), f, exports_view(fe@)),
        exports_in_range(final(m)@, n@),
{
    let ghost v0 = export_map_view(m@);
    let ghost m0 = m@;
    let ghost fv = exports_view(fe@);
    let mut i: usize = 0;
    while i < m.len()
        invariant
            m@ == m0,
            m0 == old(m)@,
            v0 == export_map_view(m@),
            fv == exports_view(fe@),
            exports_in_range(m0, n@),
            forall|b: int| 0 <= b < fe@.len() ==> (#[trigger] fe@[b]).1 < n@,
            0 <= i <= m@.len(),
            assoc_index(v0, f, i as int) is None,
        decreases m@.len() - i,
    {
        assert(v0[i as int].0 == m@[i as int].0);
        if m[i].0 == f {
            assert(assoc_index(v0, f, i + 1) == Some(i as int));
            proof { lemma_assoc_index_stable(v0, f, i + 1, v0.len() as int); }
            m.set(i, (f, fe));
            assert(export_map_view(m@) =~= v0.update(i as int, (f, fv)));
            assert forall|a: int, b: int| 0 <= a < m@.len() && 0 <= b < m@[a].1@.len() implies (#[trigger] m@[a].1@[b]).1 < n@ by {
                if a != i {
                    assert(m@[a] == m0[a]);
                }
            }
            return;
        }
        i = i + 1;
    }
    m.push((f, fe));
    assert(export_map_view(m@) =~= v0.push((f, fv)));
    assert forall|a: int, b: int| 0 <= a < m@.len() && 0 <= b < m@[a].1@.len() implies (#[trigger] m@[a].1@[b]).1 < n@ by {
        if a < m0.len() {
            assert(m@[a] == m0[a]);
        }
    }
}

impl SegmentGraph {
    /// Adds the edge `from -> to` unless it is there.
    fn insert_edge(&mut self, from: usize, to: usize)
        requires
            old(self).wf(),
            from < old(self).nodes@.len(),
            to < old(self).nodes@.len(),
        ensures
            final(self).wf(),
            final(self).nodes@ == old(self).nodes@,
            final(self).file_export_map@ == old(self).file_export_map@,
            edge_pairs(final(self).edges@) == edge_pairs(old(self).edges@).insert((from as int, to as int)),
    {
        let ghost e0 = self.edges@;
        let mut k: usize = 0;
        let mut found = false;
        while k < self.edges[from].len()
            invariant
                self.edges@ == e0,
                from < e0.len(),
                0 <= k <= e0[from as int]@.len(),
                found == exists|q: int| 0 <= q < k && e0[from as int]@[q] == to,
            decreases e0[from as int]@.len() - k,
        {
            if self.edges[from][k] == to {
                found = true;
            }
            k = k + 1;
        }
        if found {
            assert(edge_pairs(self.edges@) =~= edge_pairs(e0).insert((from as int, to as int))) by {
                assert(node_targets(e0, from as int).contains(to as int));
            }
            return;
        }
        let ghost old_list = e0[from as int]@;
        self.edges[from].push(to);
        assert(self.edges@[from as int]@ == old_list.push(to));
        assert forall|x: int| 0 <= x < self.edges@.len() && x != from implies self.edges@[x] == e0[x] by {}
        assert forall|p: (int, int)| #[trigger] edge_pairs(self.edges@).contains(p) == edge_pairs(e0).insert((from as int, to as int)).contains(p) by {
            if 0 <= p.0 < e0.len() && p.0 == from as int {
                if node_targets(self.edges@, p.0).contains(p.1) {
                    let q = choose|q: int| 0 <= q < self.edges@[p.0]@.len() && self.edges@[p.0]@[q] as int == p.1;
                    if q < old_list.len() {
                        assert(node_targets(e0, p.0).contains(p.1));
                    }
                }
                if node_targets(e0, p.0).contains(p.1) {
                    let q = choose|q: int| 0 <= q < e0[p.0]@.len() && e0[p.0]@[q] as int == p.1;
                    assert(self.edges@[p.0]@[q] as int == p.1);
                }
                if p.1 == to as int {
                    assert(self.edges@[p.0]@[old_list.len() as int] == to);
                }
            }
        }
        assert(edge_pairs(self.edges@) =~= edge_pairs(e0).insert((from as int, to as int)));
        assert(self.edges@[from as int]@.no_duplicates()) by {
            assert forall|a: int, b: int| 0 <= a < b < old_list.push(to).len() implies old_list.push(to)[a] != old_list.push(to)[b] by {
                if b == old_list.len() {
                    assert(old_list[a] != to);
                }
            }
        }
    }

    /// Adds the execution-order edges of one file (see `chain_pairs`).
    fn add_intra_file_effect_edges(&mut self, file_id: usize, segment_count: usize)
        requires
            old(self).wf(),
            forall|j: int| 0 <= j < segment_count ==> #[trigger] last_index(node_ids(old(self).nodes@),
                SegmentId { file_id: file_id, segment_idx: j as usize }, old(self).nodes@.len() as int) is Some,
        ensures
            final(self).wf(),
            final(self).nodes@ == old(self).nodes@,
            final(self).file_export_map@ == old(self).file_export_map@,
            edge_pairs(final(self).edges@) == edge_pairs(old(self).edges@).union(
                chain_pairs(node_ids(old(self).nodes@), node_hoisted(old(self).nodes@), file_id, segment_count as int, 0, None)),
    {
        let ghost ids = node_ids(self.nodes@);
        let ghost h = node_hoisted(self.nodes@);
        let ghost nodes0 = self.nodes@;
        let ghost target = edge_pairs(self.edges@).union(chain_pairs(ids, h, file_id, segment_count as int, 0, None));
        let mut prev: Option<usize> = None;
        let mut j: usize = 0;
        assert(edge_pairs(self.edges@).union(chain_pairs(ids, h, file_id, segment_count as int, 0, None)) == target);
        while j < segment_count
            invariant
                self.wf(),
                self.nodes@ == nodes0,
                ids == node_ids(nodes0),
                h == node_hoisted(nodes0),
                self.file_export_map@ == old(self).file_export_map@,
                nodes0 == old(self).nodes@,
                0 <= j <= segment_count,
                forall|jj: int| 0 <= jj < segment_count ==> #[trigger] last_index(ids,
                    SegmentId { file_id: file_id, segment_idx: jj as usize }, nodes0.len() as int) is Some,
                prev matches Some(p) ==> p < nodes0.len(),
                edge_pairs(self.edges@).union(chain_pairs(ids, h, file_id, segment_count as int, j as int, opt_idx(prev))) == target,
            decreases segment_count - j,
        {
            let sid = SegmentId::new(file_id, j);
            assert(last_index(ids, sid, nodes0.len() as int) is Some);
            proof { lemma_last_index_range(ids, sid, nodes0.len() as int); }
            let n = match self.node_index(&sid) {
                Some(n) => n,
                None => {
                    let ghost i = last_index(ids, sid, nodes0.len() as int)->0;
                    assert(ids[i] == sid);
                    assert(self.nodes@[i].id == sid);
                    j = j + 1;
                    continue;
                },
            };
            proof { lemma_last_index(ids, sid, nodes0.len() as int, n as int); }
            let ghost before = edge_pairs(self.edges@);
            let ghost rest = chain_pairs(ids, h, file_id, segment_count as int, j + 1, if !h[n as int] { Some(n as int) } else { opt_idx(prev) });
            assert(h[n as int] == self.nodes@[n as int].is_hoisted);
            if !self.nodes[n].is_hoisted {
                match prev {
                    Some(p) => {
                        self.insert_edge(n, p);
                        assert(edge_pairs(self.edges@).union(rest) =~= before.union(set![(n as int, p as int)].union(rest)));
                    },
                    None => {
                        assert(before.union(rest) =~= before.union(Set::<(int, int)>::empty().union(rest)));
                    },
                }
                prev = Some(n);
            }
            j = j + 1;
        }
        assert(chain_pairs(ids, h, file_id, segment_count as int, j as int, opt_idx(prev)) =~= Set::<(int, int)>::empty());
        assert(edge_pairs(self.edges@) =~= edge_pairs(self.edges@).union(Set::<(int, int)>::empty()));
    }
}


impl SegmentGraph {
    /// Builds the graph of the given files (`(file_id, segments)`): one
    /// node per segment in order, untagged, hoisted when the segment imports,
    /// re-exports or executes another module; the execution-order edges of
    /// each file; and, per file, the node that exports each name.
    pub fn build(file_segments: &[(usize, &[Segment])]) -> (r: SegmentGraph)
        requires
            flat_ids(file_segments@, file_segments@.len() as int).len() <= usize::MAX,
        ensures
            r.wf(),
            exports_in_range(r.file_export_map@, r.nodes@.len()),
            node_ids(r.nodes@) == flat_ids(file_segments@, file_segments@.len() as int),
            node_hoisted(r.nodes@) == flat_hoisted(file_segments@, file_segments@.len() as int),
            forall|k: int| 0 <= k < r.nodes@.len() ==> (#[trigger] r.nodes@[k]).tags.0 == 0,
            edge_pairs(r.edges@) == effect_pairs(file_segments@, flat_ids(file_segments@, file_segments@.len() as int),
                flat_hoisted(file_segments@, file_segments@.len() as int), file_segments@.len() as int),
            export_map_view(r.file_export_map@) == export_map(file_segments@, file_segments@.len() as int),
    {
        let ghost fs = file_segments@;
        let ghost total = flat_ids(fs, fs.len() as int).len();
        let mut nodes: Vec<SegmentNode> = Vec::new();
        let mut edges: Vec<Vec<usize>> = Vec::new();
        let mut file_export_map: Vec<(usize, Vec<(ExportedSymbol, usize)>)> = Vec::new();
        assert(node_ids(nodes@) =~= flat_ids(fs, 0));
        assert(node_hoisted(nodes@) =~= flat_hoisted(fs, 0));
        assert(export_map_view(file_export_map@) =~= export_map(fs, 0));
        let mut e: usize = 0;
        while e < file_segments.len()
            invariant
                fs == file_segments@,
                total == flat_ids(fs, fs.len() as int).len(),
                total <= usize::MAX,
                0 <= e <= fs.len(),
                node_ids(nodes@) == flat_ids(fs, e as int),
                node_hoisted(nodes@) == flat_hoisted(fs, e as int),
                forall|k: int| 0 <= k < nodes@.len() ==> (#[trigger] nodes@[k]).tags.0 == 0,
                edges@.len() == nodes@.len(),
                forall|k: int| 0 <= k < edges@.len() ==> (#[trigger] edges@[k])@.len() == 0,
                export_map_view(file_export_map@) == export_map(fs, e as int),
                exports_in_range(file_export_map@, nodes@.len()),
            decreases fs.len() - e,
        {
            let file_id = file_segments[e].0;
            let segs = file_segments[e].1;
            proof {
                lemma_flat_ids_len(fs, e as int, fs.len() as int);
                lemma_flat_lens(fs, e as int);
            }
            let ghost base = nodes@.len();
            let ghost ids_e = flat_ids(fs, e as int);
            let ghost h_e = flat_hoisted(fs, e as int);
            let mut fexp: Vec<(ExportedSymbol, usize)> = Vec::new();
            assert(exports_view(fexp@) =~= file_exports(segs@, base as int, 0));
            let mut j: usize = 0;
            while j < segs.len()
                invariant
                    fs == file_segments@,
                    e < fs.len(),
                    segs@ == fs[e as int].1@,
                    file_id == fs[e as int].0,
                    base == ids_e.len(),
                    ids_e == flat_ids(fs, e as int),
                    h_e == flat_hoisted(fs, e as int),
                    base + segs@.len() <= total,
                    total <= usize::MAX,
                    0 <= j <= segs@.len(),
                    nodes@.len() == base + j,
                    node_ids(nodes@) == ids_e + Seq::new(j as nat, |q: int| SegmentId { file_id: file_id, segment_idx: q as usize }),
                    node_hoisted(nodes@) == h_e + Seq::new(j as nat, |q: int| segment_hoisted(segs@[q])),
                    forall|k: int| 0 <= k < nodes@.len() ==> (#[trigger] nodes@[k]).tags.0 == 0,
                    edges@.len() == nodes@.len(),
                    forall|k: int| 0 <= k < edges@.len() ==> (#[trigger] edges@[k])@.len() == 0,
                    export_map_view(file_export_map@) == export_map(fs, e as int),
                    exports_in_range(file_export_map@, base as nat),
                    exports_view(fexp@) == file_exports(segs@, base as int, j as int),
                    forall|b: int| 0 <= b < fexp@.len() ==> (#[trigger] fexp@[b]).1 < nodes@.len(),
                decreases segs@.len() - j,
            {
                let node_idx = nodes.len();
                let sid = SegmentId::new(file_id, j);
                let is_hoisted = segment_is_hoisted(&segs[j]);
                let ghost nb = nodes@;
                let ghost hb = node_hoisted(nodes@);
                let node = SegmentNode { id: sid, tags: TagSet::empty(), is_hoisted: is_hoisted };
                nodes.push(node);
                proof {
                    lemma_map_push(nb, node, |n: SegmentNode| n.id);
                    lemma_map_push(nb, node, |n: SegmentNode| n.is_hoisted);
                }
                assert(node_ids(nodes@) =~= ids_e + Seq::new((j + 1) as nat, |q: int| SegmentId { file_id: file_id, segment_idx: q as usize }));
                assert(node_hoisted(nodes@) =~= h_e + Seq::new((j + 1) as nat, |q: int| segment_hoisted(segs@[q])));
                edges.push(Vec::new());
                let ghost fb = fexp@;
                add_segment_exports(&mut fexp, &segs[j], node_idx);
                assert forall|b: int| 0 <= b < fexp@.len() implies (#[trigger] fexp@[b]).1 < nodes@.len() by {
                    if fexp@[b].1 != node_idx {
                        let c = choose|c: int| 0 <= c < fb.len() && fb[c].1 == fexp@[b].1;
                        assert(fb[c].1 < nodes@.len());
                    }
                }
                j = j + 1;
            }
            assert(Seq::new(segs@.len(), |q: int| SegmentId { file_id: file_id, segment_idx: q as usize })
                =~= Seq::new(fs[e as int].1@.len(), |q: int| SegmentId { file_id: fs[e as int].0, segment_idx: q as usize }));
            assert(Seq::new(segs@.len(), |q: int| segment_hoisted(segs@[q]))
                =~= Seq::new(fs[e as int].1@.len(), |q: int| segment_hoisted(fs[e as int].1@[q])));
            assert(node_ids(nodes@) == flat_ids(fs, e + 1));
            assert(node_hoisted(nodes@) == flat_hoisted(fs, e + 1));
            proof {
                assert forall|a: int, b: int| 0 <= a < file_export_map@.len() && 0 <= b < file_export_map@[a].1@.len()
                    implies (#[trigger] file_export_map@[a].1@[b]).1 < nodes@.len() by {
                    assert(file_export_map@[a].1@[b].1 < base);
                }
            }
            export_map_insert(&mut file_export_map, file_id, fexp, Ghost(nodes@.len()));
            e = e + 1;
        }
        let mut graph = SegmentGraph { nodes: nodes, edges: edges, file_export_map: file_export_map };
        let ghost ids = flat_ids(fs, fs.len() as int);
        let ghost h = flat_hoisted(fs, fs.len() as int);
        proof { lemma_flat_lens(fs, fs.len() as int); }
        assert(graph.wf()) by {
            assert forall|i: int| 0 <= i < graph.nodes@.len() implies (#[trigger] graph.edges@[i]@).no_duplicates() by {
                assert(graph.edges@[i]@.len() == 0);
            }
        }
        assert(edge_pairs(graph.edges@) =~= effect_pairs(fs, ids, h, 0)) by {
            assert forall|p: (int, int)| !#[trigger] edge_pairs(graph.edges@).contains(p) by {
                if 0 <= p.0 < graph.edges@.len() {
                    assert(graph.edges@[p.0]@.len() == 0);
                }
            }
        }
        let mut e2: usize = 0;
        while e2 < file_segments.len()
            invariant
                fs == file_segments@,
                ids == flat_ids(fs, fs.len() as int),
                h == flat_hoisted(fs, fs.len() as int),
                graph.wf(),
                node_ids(graph.nodes@) == ids,
                node_hoisted(graph.nodes@) == h,
                forall|k: int| 0 <= k < graph.nodes@.len() ==> (#[trigger] graph.nodes@[k]).tags.0 == 0,
                export_map_view(graph.file_export_map@) == export_map(fs, fs.len() as int),
                exports_in_range(graph.file_export_map@, graph.nodes@.len()),
                0 <= e2 <= fs.len(),
                edge_pairs(graph.edges@) == effect_pairs(fs, ids, h, e2 as int),
            decreases fs.len() - e2,
        {
            let file_id = file_segments[e2].0;
            let count = file_segments[e2].1.len();
            proof {
                assert forall|j: int| 0 <= j < count implies #[trigger] last_index(node_ids(graph.nodes@),
                    SegmentId { file_id: file_id, segment_idx: j as usize }, graph.nodes@.len() as int) is Some by {
                    lemma_flat_ids_len(fs, e2 as int, e2 + 1);
                    lemma_flat_ids_len(fs, e2 + 1, fs.len() as int);
                    let k = flat_ids(fs, e2 as int).len() + j;
                    assert(flat_ids(fs, e2 + 1)[k] == SegmentId { file_id: file_id, segment_idx: j as usize });
                    lemma_flat_ids_prefix(fs, e2 + 1, fs.len() as int, k);
                    lemma_last_index_exists(ids, SegmentId { file_id: file_id, segment_idx: j as usize }, ids.len() as int, k);
                }
            }
            graph.add_intra_file_effect_edges(file_id, count);
            e2 = e2 + 1;
        }
        graph
    }
}


/// Every node exporting something in `m`.
pub open spec fn all_targets(m: ExportsView) -> Set<int> {
    Set::new(|x: int| exists|i: int| 0 <= i < m.len() && m[i].1 as int == x)
}

/// The nodes of a file's exports that a symbol depends on: the exporter of
/// a named or default symbol, every exporter for a namespace.
pub open spec fn name_targets(m: ExportsView, sym: SymbolView) -> Set<int> {
    match sym {
        SymbolView::Named(n) => match assoc_find(m, ExportedSymbolView::Named(n)) {
            Some(i) => set![m[i].1 as int],
            None => Set::empty(),
        },
        SymbolView::Default => match assoc_find(m, ExportedSymbolView::Default) {
            Some(i) => set![m[i].1 as int],
            None => Set::empty(),
        },
        SymbolView::Namespace => all_targets(m),
    }
}

/// The nodes of file `tf` that a symbol depends on (none for a file
/// without exports).
pub open spec fn file_targets(fem: Seq<(usize, ExportsView)>, tf: usize, sym: SymbolView) -> Set<int> {
    match assoc_find(fem, tf) {
        Some(k) => name_targets(fem[k].1, sym),
        None => Set::empty(),
    }
}

pub open spec fn resolved_view(v: Seq<((usize, String), usize)>) -> Seq<((usize, Seq<char>), usize)> {
    v.map_values(|e: ((usize, String), usize)| ((e.0.0, e.0.1@), e.1))
}

/// The file an import specifier of file `f` resolved to.
pub open spec fn resolve_target(rv: Seq<((usize, Seq<char>), usize)>, f: usize, spec: Seq<char>) -> Option<usize> {
    match assoc_find(rv, (f, spec)) {
        Some(i) => Some(rv[i].1),
        None => None,
    }
}

pub open spec fn syms_targets(fem: Seq<(usize, ExportsView)>, tf: Option<usize>, syms: Seq<SymbolView>, n: int) -> Set<int>
    decreases n,
{
    if n <= 0 {
        Set::empty()
    } else {
        syms_targets(fem, tf, syms, n - 1).union(match tf {
            Some(t) => file_targets(fem, t, syms[n - 1]),
            None => Set::empty(),
        })
    }
}

pub open spec fn tagged_syms(v: Seq<crate::symbols::TaggedSymbol>) -> Seq<SymbolView> {
    v.map_values(|t: crate::symbols::TaggedSymbol| t.symbol@)
}

pub open spec fn plain_syms(v: Seq<Symbol>) -> Seq<SymbolView> {
    v.map_values(|s: Symbol| s@)
}

/// The symbol a re-export takes from the other module.
pub open spec fn reexport_symbol(r: crate::symbols::ReExportedSymbol) -> SymbolView {
    match r.imported_as {
        ImportTarget::ExportedSymbol(ExportedSymbol::Named(n)) => SymbolView::Named(n@),
        ImportTarget::ExportedSymbol(ExportedSymbol::Default) => SymbolView::Default,
        ImportTarget::Namespace => SymbolView::Namespace,
    }
}

pub open spec fn reexport_syms(v: Seq<crate::symbols::ReExportedSymbol>) -> Seq<SymbolView> {
    v.map_values(|r: crate::symbols::ReExportedSymbol| reexport_symbol(r))
}

pub open spec fn imports_targets(fem: Seq<(usize, ExportsView)>, rv: Seq<((usize, Seq<char>), usize)>, f: usize,
    imps: Seq<(String, Vec<crate::symbols::TaggedSymbol>)>, n: int) -> Set<int>
    decreases n,
{
    if n <= 0 {
        Set::empty()
    } else {
        imports_targets(fem, rv, f, imps, n - 1).union(
            syms_targets(fem, resolve_target(rv, f, imps[n - 1].0@), tagged_syms(imps[n - 1].1@), imps[n - 1].1@.len() as int))
    }
}

pub open spec fn dynamic_targets(fem: Seq<(usize, ExportsView)>, rv: Seq<((usize, Seq<char>), usize)>, f: usize,
    imps: Seq<(String, Vec<Symbol>)>, n: int) -> Set<int>
    decreases n,
{
    if n <= 0 {
        Set::empty()
    } else {
        dynamic_targets(fem, rv, f, imps, n - 1).union(
            syms_targets(fem, resolve_target(rv, f, imps[n - 1].0@), plain_syms(imps[n - 1].1@), imps[n - 1].1@.len() as int))
    }
}

pub open spec fn reexports_targets(fem: Seq<(usize, ExportsView)>, rv: Seq<((usize, Seq<char>), usize)>, f: usize,
    groups: Seq<(String, Vec<crate::symbols::ReExportedSymbol>)>, n: int) -> Set<int>
    decreases n,
{
    if n <= 0 {
        Set::empty()
    } else {
        reexports_targets(fem, rv, f, groups, n - 1).union(
            syms_targets(fem, resolve_target(rv, f, groups[n - 1].0@), reexport_syms(groups[n - 1].1@), groups[n - 1].1@.len() as int))
    }
}

pub open spec fn executed_targets(fem: Seq<(usize, ExportsView)>, rv: Seq<((usize, Seq<char>), usize)>, f: usize,
    paths: Seq<String>, n: int) -> Set<int>
    decreases n,
{
    if n <= 0 {
        Set::empty()
    } else {
        executed_targets(fem, rv, f, paths, n - 1).union(match resolve_target(rv, f, paths[n - 1]@) {
            Some(tf) => match assoc_find(fem, tf) {
                Some(k) => all_targets(fem[k].1),
                None => Set::empty(),
            },
            None => Set::empty(),
        })
    }
}

/// The nodes a segment of file `f` depends on through its imports,
/// dynamic imports, re-exports (each by symbol) and executed modules (every
/// exporter of the module).
pub open spec fn dep_targets(fem: Seq<(usize, ExportsView)>, rv: Seq<((usize, Seq<char>), usize)>, f: usize, d: RawModuleDeps) -> Set<int> {
    imports_targets(fem, rv, f, d.imports@, d.imports@.len() as int)
        .union(dynamic_targets(fem, rv, f, d.dynamic_imports@, d.dynamic_imports@.len() as int))
        .union(reexports_targets(fem, rv, f, d.exports_from@, d.exports_from@.len() as int))
        .union(executed_targets(fem, rv, f, d.executed_paths@, d.executed_paths@.len() as int))
}

pub open spec fn pairs_from(from: int, s: Set<int>) -> Set<(int, int)> {
    Set::new(|p: (int, int)| p.0 == from && s.contains(p.1))
}

/// The name edges of the first `j` segments of file entry `e`.
pub open spec fn seg_pairs(fs: Seq<(usize, &[Segment])>, ids: Seq<SegmentId>, fem: Seq<(usize, ExportsView)>,
    rv: Seq<((usize, Seq<char>), usize)>, e: int, j: int) -> Set<(int, int)>
    decreases j,
{
    if j <= 0 {
        Set::empty()
    } else {
        let f = fs[e].0;
        let from = last_index(ids, SegmentId { file_id: f, segment_idx: (j - 1) as usize }, ids.len() as int)->0;
        seg_pairs(fs, ids, fem, rv, e, j - 1).union(pairs_from(from, dep_targets(fem, rv, f, fs[e].1@[j - 1].module_deps)))
    }
}

/// The name edges of the first `e` file entries.
pub open spec fn inter_pairs(fs: Seq<(usize, &[Segment])>, ids: Seq<SegmentId>, fem: Seq<(usize, ExportsView)>,
    rv: Seq<((usize, Seq<char>), usize)>, e: int) -> Set<(int, int)>
    decreases e,
{
    if e <= 0 {
        Set::empty()
    } else {
        inter_pairs(fs, ids, fem, rv, e - 1).union(seg_pairs(fs, ids, fem, rv, e - 1, fs[e - 1].1@.len() as int))
    }
}

/// The entry of file `f` in the export map.
fn find_file_exports(m: &Vec<(usize, Vec<(ExportedSymbol, usize)>)>, f: usize) -> (r: Option<usize>)
    ensures
        match r {
            Some(k) => assoc_find(export_map_view(m@), f) == Some(k as int) && k < m@.len(),
            None => assoc_find(export_map_view(m@), f) is None,
        },
{
    let ghost v = export_map_view(m@);
    let mut i: usize = 0;
    while i < m.len()
        invariant
            v == export_map_view(m@),
            0 <= i <= m@.len(),
            assoc_index(v, f, i as int) is None,
        decreases m@.len() - i,
    {
        assert(v[i as int].0 == m@[i as int].0);
        if m[i].0 == f {
            assert(assoc_index(v, f, i + 1) == Some(i as int));
            proof { lemma_assoc_index_stable(v, f, i + 1, v.len() as int); }
            return Some(i);
        }
        i = i + 1;
    }
    None
}

/// The node exporting `k` in a file's exports.
fn find_export(m: &Vec<(ExportedSymbol, usize)>, k: &ExportedSymbol) -> (r: Option<usize>)
    ensures
        match r {
            Some(i) => assoc_find(exports_view(m@), k@) == Some(i as int) && i < m@.len(),
            None => assoc_find(exports_view(m@), k@) is None,
        },
{
    let ghost v = exports_view(m@);
    let mut i: usize = 0;
    while i < m.len()
        invariant
            v == exports_view(m@),
            0 <= i <= m@.len(),
            assoc_index(v, k@, i as int) is None,
        decreases m@.len() - i,
    {
        assert(v[i as int] == (m@[i as int].0@, m@[i as int].1));
        if m[i].0.same_as(k) {
            assert(assoc_index(v, k@, i + 1) == Some(i as int));
            proof { lemma_assoc_index_stable(v, k@, i + 1, v.len() as int); }
            return Some(i);
        }
        i = i + 1;
    }
    None
}

/// The file an import specifier of file `f` resolved to.
fn lookup_resolved(resolved: &Vec<((usize, String), usize)>, f: usize, spec: &String) -> (r: Option<usize>)
    ensures
        r == resolve_target(resolved_view(resolved@), f, spec@),
{
    let ghost v = resolved_view(resolved@);
    let sc = str_chars(spec.as_str());
    let mut i: usize = 0;
    while i < resolved.len()
        invariant
            v == resolved_view(resolved@),
            sc@ == spec@,
            0 <= i <= resolved@.len(),
            assoc_index(v, (f, spec@), i as int) is None,
        decreases resolved@.len() - i,
    {
        assert(v[i as int] == ((resolved@[i as int].0.0, resolved@[i as int].0.1@), resolved@[i as int].1));
        let kc = str_chars(resolved[i].0.1.as_str());
        if resolved[i].0.0 == f && chars_eq(kc.as_slice(), sc.as_slice()) {
            assert(assoc_index(v, (f, spec@), i + 1) == Some(i as int));
            proof { lemma_assoc_index_stable(v, (f, spec@), i + 1, v.len() as int); }
            return Some(resolved[i].1);
        }
        i = i + 1;
    }
    None
}

impl SegmentGraph {
    /// Adds edges from `from` to every node exporting something from the
    /// file at entry `k` of the export map.
    fn add_all_export_edges(&mut self, from: usize, k: usize)
        requires
            old(self).wf(),
            exports_in_range(old(self).file_export_map@, old(self).nodes@.len()),
            from < old(self).nodes@.len(),
            k < old(self).file_export_map@.len(),
        ensures
            final(self).wf(),
            final(self).nodes@ == old(self).nodes@,
            final(self).file_export_map@ == old(self).file_export_map@,
            edge_pairs(final(self).edges@) == edge_pairs(old(self).edges@).union(
                pairs_from(from as int, all_targets(export_map_view(old(self).file_export_map@)[k as int].1))),
    {
        let ghost fem = export_map_view(self.file_export_map@);
        let ghost m = fem[k as int].1;
        assert(m == exports_view(self.file_export_map@[k as int].1@));
        let mut targets: Vec<usize> = Vec::new();
        let mut i: usize = 0;
        while i < self.file_export_map[k].1.len()
            invariant
                k < self.file_export_map@.len(),
                m == exports_view(self.file_export_map@[k as int].1@),
                0 <= i <= m.len(),
                targets@.len() == i,
                forall|q: int| 0 <= q < i ==> targets@[q] == m[q].1,
            decreases m.len() - i,
        {
            assert(m[i as int].1 == self.file_export_map@[k as int].1@[i as int].1);
            targets.push(self.file_export_map[k].1[i].1);
            i = i + 1;
        }
        let ghost e0 = edge_pairs(self.edges@);
        let mut t: usize = 0;
        while t < targets.len()
            invariant
                self.wf(),
                exports_in_range(self.file_export_map@, self.nodes@.len()),
                self.nodes@ == old(self).nodes@,
                self.file_export_map@ == old(self).file_export_map@,
                fem == export_map_view(self.file_export_map@),
                k < self.file_export_map@.len(),
                m == fem[k as int].1,
                m == exports_view(self.file_export_map@[k as int].1@),
                from < self.nodes@.len(),
                targets@.len() == m.len(),
                forall|q: int| 0 <= q < m.len() ==> targets@[q] == m[q].1,
                0 <= t <= targets@.len(),
                edge_pairs(self.edges@) == e0.union(pairs_from(from as int, Set::new(|x: int| exists|q: int| 0 <= q < t && m[q].1 as int == x))),
            decreases targets@.len() - t,
        {
            let to = targets[t];
            assert(to == self.file_export_map@[k as int].1@[t as int].1);
            let ghost before = edge_pairs(self.edges@);
            self.insert_edge(from, to);
            assert(edge_pairs(self.edges@) =~= e0.union(pairs_from(from as int, Set::new(|x: int| exists|q: int| 0 <= q < t + 1 && m[q].1 as int == x)))) by {
                assert forall|p: (int, int)| #[trigger] edge_pairs(self.edges@).contains(p) == e0.union(pairs_from(from as int, Set::new(|x: int| exists|q: int| 0 <= q < t + 1 && m[q].1 as int == x)))
                    .contains(p) by {
                    if p.0 == from as int && p.1 == to as int {
                        assert(m[t as int].1 as int == p.1);
                    }
                    if p.0 == from as int && (exists|q: int| 0 <= q < t + 1 && m[q].1 as int == p.1) {
                        let q = choose|q: int| 0 <= q < t + 1 && m[q].1 as int == p.1;
                        if q < t {
                            assert(exists|q2: int| 0 <= q2 < t && m[q2].1 as int == p.1);
                        }
                    }
                }
            }
            t = t + 1;
        }
        assert(Set::new(|x: int| exists|q: int| 0 <= q < t && m[q].1 as int == x) =~= all_targets(m));
    }

    /// Adds the edges from `from` to the nodes of file `target_file` that
    /// `symbol` depends on.
    fn add_name_edge(&mut self, from: usize, target_file: usize, symbol: &Symbol)
        requires
            old(self).wf(),
            exports_in_range(old(self).file_export_map@, old(self).nodes@.len()),
            from < old(self).nodes@.len(),
        ensures
            final(self).wf(),
            final(self).nodes@ == old(self).nodes@,
            final(self).file_export_map@ == old(self).file_export_map@,
            edge_pairs(final(self).edges@) == edge_pairs(old(self).edges@).union(
                pairs_from(from as int, file_targets(export_map_view(old(self).file_export_map@), target_file, symbol@))),
    {
        let ghost e0 = edge_pairs(self.edges@);
        let ghost fem = export_map_view(self.file_export_map@);
        let k = match find_file_exports(&self.file_export_map, target_file) {
            Some(k) => k,
            None => {
                assert(e0.union(pairs_from(from as int, Set::<int>::empty())) =~= e0);
                return;
            },
        };
        assert(fem[k as int].1 == exports_view(self.file_export_map@[k as int].1@));
        match symbol {
            Symbol::Named(name) => {
                let key = ExportedSymbol::Named(name.duplicate());
                match find_export(&self.file_export_map[k].1, &key) {
                    Some(i) => {
                        let to = self.file_export_map[k].1[i].1;
                        assert(fem[k as int].1[i as int].1 == to);
                        self.insert_edge(from, to);
                        assert(edge_pairs(self.edges@) =~= e0.union(pairs_from(from as int, set![to as int])));
                    },
                    None => {
                        assert(e0.union(pairs_from(from as int, Set::<int>::empty())) =~= e0);
                    },
                }
            },
            Symbol::Default => {
                let key = ExportedSymbol::Default;
                match find_export(&self.file_export_map[k].1, &key) {
                    Some(i) => {
                        let to = self.file_export_map[k].1[i].1;
                        assert(fem[k as int].1[i as int].1 == to);
                        self.insert_edge(from, to);
                        assert(edge_pairs(self.edges@) =~= e0.union(pairs_from(from as int, set![to as int])));
                    },
                    None => {
                        assert(e0.union(pairs_from(from as int, Set::<int>::empty())) =~= e0);
                    },
                }
            },
            Symbol::Namespace => {
                self.add_all_export_edges(from, k);
            },
        }
    }
}


pub proof fn lemma_pairs_from_union(from: int, a: Set<int>, b: Set<int>)
    ensures
        pairs_from(from, a.union(b)) == pairs_from(from, a).union(pairs_from(from, b)),
{
    assert(pairs_from(from, a.union(b)) =~= pairs_from(from, a).union(pairs_from(from, b)));
}

impl SegmentGraph {
    /// Adds the edges from `from` for symbols taken from the module that
    /// the import specifier `spec` of file `file_id` resolved to.
    fn add_symbol_edges(&mut self, file_id: usize, from: usize, spec: &String, syms: &Vec<Symbol>,
        resolved: &Vec<((usize, String), usize)>)
        requires
            old(self).wf(),
            exports_in_range(old(self).file_export_map@, old(self).nodes@.len()),
            from < old(self).nodes@.len(),
        ensures
            final(self).wf(),
            exports_in_range(final(self).file_export_map@, final(self).nodes@.len()),
            final(self).nodes@ == old(self).nodes@,
            final(self).file_export_map@ == old(self).file_export_map@,
            edge_pairs(final(self).edges@) == edge_pairs(old(self).edges@).union(pairs_from(from as int,
                syms_targets(export_map_view(old(self).file_export_map@), resolve_target(resolved_view(resolved@), file_id, spec@),
                    plain_syms(syms@), syms@.len() as int))),
    {
        let ghost fem = export_map_view(self.file_export_map@);
        let ghost e0 = edge_pairs(self.edges@);
        let tf = lookup_resolved(resolved, file_id, spec);
        let ghost ps = plain_syms(syms@);
        assert(e0 =~= e0.union(pairs_from(from as int, syms_targets(fem, tf, ps, 0))));
        let mut j: usize = 0;
        while j < syms.len()
            invariant
                self.wf(),
                exports_in_range(self.file_export_map@, self.nodes@.len()),
                self.nodes@ == old(self).nodes@,
                self.file_export_map@ == old(self).file_export_map@,
                fem == export_map_view(self.file_export_map@),
                from < self.nodes@.len(),
                ps == plain_syms(syms@),
                0 <= j <= syms@.len(),
                edge_pairs(self.edges@) == e0.union(pairs_from(from as int, syms_targets(fem, tf, ps, j as int))),
            decreases syms@.len() - j,
        {
            assert(ps[j as int] == syms@[j as int]@);
            let ghost before = edge_pairs(self.edges@);
            match tf {
                Some(t) => {
                    self.add_name_edge(from, t, &syms[j]);
                },
                None => {},
            }
            proof {
                let step = match tf {
                    Some(t) => file_targets(fem, t, ps[j as int]),
                    None => Set::empty(),
                };
                lemma_pairs_from_union(from as int, syms_targets(fem, tf, ps, j as int), step);
                assert(edge_pairs(self.edges@) =~= before.union(pairs_from(from as int, step)));
            }
            j = j + 1;
        }
    }

    /// Adds the edges from `from` for the symbols of one import of file
    /// `file_id`.
    fn add_tagged_edges(&mut self, file_id: usize, from: usize, spec: &String, syms: &Vec<crate::symbols::TaggedSymbol>,
        resolved: &Vec<((usize, String), usize)>)
        requires
            old(self).wf(),
            exports_in_range(old(self).file_export_map@, old(self).nodes@.len()),
            from < old(self).nodes@.len(),
        ensures
            final(self).wf(),
            exports_in_range(final(self).file_export_map@, final(self).nodes@.len()),
            final(self).nodes@ == old(self).nodes@,
            final(self).file_export_map@ == old(self).file_export_map@,
            edge_pairs(final(self).edges@) == edge_pairs(old(self).edges@).union(pairs_from(from as int,
                syms_targets(export_map_view(old(self).file_export_map@), resolve_target(resolved_view(resolved@), file_id, spec@),
                    tagged_syms(syms@), syms@.len() as int))),
    {
        let mut plain: Vec<Symbol> = Vec::new();
        let mut i: usize = 0;
        while i < syms.len()
            invariant
                0 <= i <= syms@.len(),
                plain_syms(plain@) == tagged_syms(syms@).take(i as int),
            decreases syms@.len() - i,
        {
            let ghost before = plain@;
            let sym = match &syms[i].symbol {
                Symbol::Named(n) => Symbol::Named(n.duplicate()),
                Symbol::Default => Symbol::Default,
                Symbol::Namespace => Symbol::Namespace,
            };
            plain.push(sym);
            proof {
                lemma_map_push(before, sym, |s: Symbol| s@);
                assert(tagged_syms(syms@).take(i + 1) =~= tagged_syms(syms@).take(i as int).push(syms@[i as int].symbol@));
            }
            i = i + 1;
        }
        assert(tagged_syms(syms@).take(syms@.len() as int) =~= tagged_syms(syms@));
        self.add_symbol_edges(file_id, from, spec, &plain, resolved);
    }

    /// Adds the edges from `from` for the re-exports of one module.
    fn add_reexport_edges(&mut self, file_id: usize, from: usize, spec: &String, items: &Vec<crate::symbols::ReExportedSymbol>,
        resolved: &Vec<((usize, String), usize)>)
        requires
            old(self).wf(),
            exports_in_range(old(self).file_export_map@, old(self).nodes@.len()),
            from < old(self).nodes@.len(),
        ensures
            final(self).wf(),
            exports_in_range(final(self).file_export_map@, final(self).nodes@.len()),
            final(self).nodes@ == old(self).nodes@,
            final(self).file_export_map@ == old(self).file_export_map@,
            edge_pairs(final(self).edges@) == edge_pairs(old(self).edges@).union(pairs_from(from as int,
                syms_targets(export_map_view(old(self).file_export_map@), resolve_target(resolved_view(resolved@), file_id, spec@),
                    reexport_syms(items@), items@.len() as int))),
    {
        let mut plain: Vec<Symbol> = Vec::new();
        let mut i: usize = 0;
        while i < items.len()
            invariant
                0 <= i <= items@.len(),
                plain_syms(plain@) == reexport_syms(items@).take(i as int),
            decreases items@.len() - i,
        {
            let ghost before = plain@;
            let sym = match &items[i].imported_as {
                ImportTarget::ExportedSymbol(ExportedSymbol::Named(n)) => Symbol::Named(n.duplicate()),
                ImportTarget::ExportedSymbol(ExportedSymbol::Default) => Symbol::Default,
                ImportTarget::Namespace => Symbol::Namespace,
            };
            plain.push(sym);
            proof {
                lemma_map_push(before, sym, |s: Symbol| s@);
                assert(reexport_syms(items@).take(i + 1) =~= reexport_syms(items@).take(i as int).push(reexport_symbol(items@[i as int])));
            }
            i = i + 1;
        }
        assert(reexport_syms(items@).take(items@.len() as int) =~= reexport_syms(items@));
        self.add_symbol_edges(file_id, from, spec, &plain, resolved);
    }

    /// Adds the edges of one segment of file `file_id`, at node `from_idx`
    /// (see `dep_targets`).
    fn add_edges_for_deps(&mut self, file_id: usize, from_idx: usize, deps: &RawModuleDeps, resolved: &Vec<((usize, String), usize)>)
        requires
            old(self).wf(),
            exports_in_range(old(self).file_export_map@, old(self).nodes@.len()),
            from_idx < old(self).nodes@.len(),
        ensures
            final(self).wf(),
            exports_in_range(final(self).file_export_map@, final(self).nodes@.len()),
            final(self).nodes@ == old(self).nodes@,
            final(self).file_export_map@ == old(self).file_export_map@,
            edge_pairs(final(self).edges@) == edge_pairs(old(self).edges@).union(pairs_from(from_idx as int,
                dep_targets(export_map_view(old(self).file_export_map@), resolved_view(resolved@), file_id, *deps))),
    {
        let ghost fem = export_map_view(self.file_export_map@);
        let ghost rv = resolved_view(resolved@);
        let ghost e0 = edge_pairs(self.edges@);
        let ghost from = from_idx as int;
        assert(e0 =~= e0.union(pairs_from(from, imports_targets(fem, rv, file_id, deps.imports@, 0))));
        let mut i: usize = 0;
        while i < deps.imports.len()
            invariant
                self.wf(),
                exports_in_range(self.file_export_map@, self.nodes@.len()),
                self.nodes@ == old(self).nodes@,
                self.file_export_map@ == old(self).file_export_map@,
                fem == export_map_view(self.file_export_map@),
                rv == resolved_view(resolved@),
                from == from_idx as int,
                from_idx < self.nodes@.len(),
                0 <= i <= deps.imports@.len(),
                edge_pairs(self.edges@) == e0.union(pairs_from(from, imports_targets(fem, rv, file_id, deps.imports@, i as int))),
            decreases deps.imports@.len() - i,
        {
            let ghost before = edge_pairs(self.edges@);
            self.add_tagged_edges(file_id, from_idx, &deps.imports[i].0, &deps.imports[i].1, resolved);
            proof {
                let step = syms_targets(fem, resolve_target(rv, file_id, deps.imports@[i as int].0@),
                    tagged_syms(deps.imports@[i as int].1@), deps.imports@[i as int].1@.len() as int);
                lemma_pairs_from_union(from, imports_targets(fem, rv, file_id, deps.imports@, i as int), step);
                assert(edge_pairs(self.edges@) =~= before.union(pairs_from(from, step)));
            }
            i = i + 1;
        }
        let ghost s1 = imports_targets(fem, rv, file_id, deps.imports@, deps.imports@.len() as int);
        assert(edge_pairs(self.edges@) =~= e0.union(pairs_from(from, s1.union(dynamic_targets(fem, rv, file_id, deps.dynamic_imports@, 0)))));
        let mut d: usize = 0;
        while d < deps.dynamic_imports.len()
            invariant
                self.wf(),
                exports_in_range(self.file_export_map@, self.nodes@.len()),
                self.nodes@ == old(self).nodes@,
                self.file_export_map@ == old(self).file_export_map@,
                fem == export_map_view(self.file_export_map@),
                rv == resolved_view(resolved@),
                from == from_idx as int,
                from_idx < self.nodes@.len(),
                0 <= d <= deps.dynamic_imports@.len(),
                edge_pairs(self.edges@) == e0.union(pairs_from(from, s1.union(dynamic_targets(fem, rv, file_id, deps.dynamic_imports@, d as int)))),
            decreases deps.dynamic_imports@.len() - d,
        {
            let ghost before = edge_pairs(self.edges@);
            self.add_symbol_edges(file_id, from_idx, &deps.dynamic_imports[d].0, &deps.dynamic_imports[d].1, resolved);
            proof {
                let step = syms_targets(fem, resolve_target(rv, file_id, deps.dynamic_imports@[d as int].0@),
                    plain_syms(deps.dynamic_imports@[d as int].1@), deps.dynamic_imports@[d as int].1@.len() as int);
                lemma_pairs_from_union(from, s1.union(dynamic_targets(fem, rv, file_id, deps.dynamic_imports@, d as int)), step);
                assert(s1.union(dynamic_targets(fem, rv, file_id, deps.dynamic_imports@, d + 1))
                    =~= s1.union(dynamic_targets(fem, rv, file_id, deps.dynamic_imports@, d as int)).union(step));
                assert(edge_pairs(self.edges@) =~= before.union(pairs_from(from, step)));
            }
            d = d + 1;
        }
        let ghost s2 = s1.union(dynamic_targets(fem, rv, file_id, deps.dynamic_imports@, deps.dynamic_imports@.len() as int));
        assert(s2 =~= s2.union(reexports_targets(fem, rv, file_id, deps.exports_from@, 0)));
        let mut g: usize = 0;
        while g < deps.exports_from.len()
            invariant
                self.wf(),
                exports_in_range(self.file_export_map@, self.nodes@.len()),
                self.nodes@ == old(self).nodes@,
                self.file_export_map@ == old(self).file_export_map@,
                fem == export_map_view(self.file_export_map@),
                rv == resolved_view(resolved@),
                from == from_idx as int,
                from_idx < self.nodes@.len(),
                0 <= g <= deps.exports_from@.len(),
                edge_pairs(self.edges@) == e0.union(pairs_from(from, s2.union(reexports_targets(fem, rv, file_id, deps.exports_from@, g as int)))),
            decreases deps.exports_from@.len() - g,
        {
            let ghost before = edge_pairs(self.edges@);
            self.add_reexport_edges(file_id, from_idx, &deps.exports_from[g].0, &deps.exports_from[g].1, resolved);
            proof {
                let step = syms_targets(fem, resolve_target(rv, file_id, deps.exports_from@[g as int].0@),
                    reexport_syms(deps.exports_from@[g as int].1@), deps.exports_from@[g as int].1@.len() as int);
                lemma_pairs_from_union(from, s2.union(reexports_targets(fem, rv, file_id, deps.exports_from@, g as int)), step);
                assert(s2.union(reexports_targets(fem, rv, file_id, deps.exports_from@, g + 1))
                    =~= s2.union(reexports_targets(fem, rv, file_id, deps.exports_from@, g as int)).union(step));
                assert(edge_pairs(self.edges@) =~= before.union(pairs_from(from, step)));
            }
            g = g + 1;
        }
        let ghost s3 = s2.union(reexports_targets(fem, rv, file_id, deps.exports_from@, deps.exports_from@.len() as int));
        assert(s3 =~= s3.union(executed_targets(fem, rv, file_id, deps.executed_paths@, 0)));
        let mut x: usize = 0;
        while x < deps.executed_paths.len()
            invariant
                self.wf(),
                exports_in_range(self.file_export_map@, self.nodes@.len()),
                self.nodes@ == old(self).nodes@,
                self.file_export_map@ == old(self).file_export_map@,
                fem == export_map_view(self.file_export_map@),
                rv == resolved_view(resolved@),
                from == from_idx as int,
                from_idx < self.nodes@.len(),
                0 <= x <= deps.executed_paths@.len(),
                edge_pairs(self.edges@) == e0.union(pairs_from(from, s3.union(executed_targets(fem, rv, file_id, deps.executed_paths@, x as int)))),
            decreases deps.executed_paths@.len() - x,
        {
            let ghost before = edge_pairs(self.edges@);
            let ghost step = match resolve_target(rv, file_id, deps.executed_paths@[x as int]@) {
                Some(tf) => match assoc_find(fem, tf) {
                    Some(k) => all_targets(fem[k].1),
                    None => Set::empty(),
                },
                None => Set::empty(),
            };
            match lookup_resolved(resolved, file_id, &deps.executed_paths[x]) {
                Some(tf) => {
                    match find_file_exports(&self.file_export_map, tf) {
                        Some(k) => {
                            self.add_all_export_edges(from_idx, k);
                        },
                        None => {
                            assert(before =~= before.union(pairs_from(from, Set::<int>::empty())));
                        },
                    }
                },
                None => {
                    assert(before =~= before.union(pairs_from(from, Set::<int>::empty())));
                },
            }
            proof {
                lemma_pairs_from_union(from, s3.union(executed_targets(fem, rv, file_id, deps.executed_paths@, x as int)), step);
                assert(s3.union(executed_targets(fem, rv, file_id, deps.executed_paths@, x + 1))
                    =~= s3.union(executed_targets(fem, rv, file_id, deps.executed_paths@, x as int)).union(step));
                assert(edge_pairs(self.edges@) =~= before.union(pairs_from(from, step)));
            }
            x = x + 1;
        }
        assert(s3.union(executed_targets(fem, rv, file_id, deps.executed_paths@, deps.executed_paths@.len() as int))
            =~= dep_targets(fem, rv, file_id, *deps));
    }

    /// Adds the name edges of every segment of the given files, with
    /// `resolved_imports` mapping `(file_id, specifier)` to the file the
    /// specifier resolved to (see `inter_pairs`).
    pub fn add_inter_file_edges(&mut self, file_segments: &[(usize, &[Segment])], resolved_imports: &Vec<((usize, String), usize)>)
        requires
            old(self).wf(),
            exports_in_range(old(self).file_export_map@, old(self).nodes@.len()),
            forall|e: int, j: int| 0 <= e < file_segments@.len() && 0 <= j < file_segments@[e].1@.len()
                ==> #[trigger] last_index(node_ids(old(self).nodes@),
                    SegmentId { file_id: file_segments@[e].0, segment_idx: j as usize }, old(self).nodes@.len() as int) matches Some(_),
        ensures
            final(self).wf(),
            exports_in_range(final(self).file_export_map@, final(self).nodes@.len()),
            final(self).nodes@ == old(self).nodes@,
            final(self).file_export_map@ == old(self).file_export_map@,
            edge_pairs(final(self).edges@) == edge_pairs(old(self).edges@).union(inter_pairs(file_segments@, node_ids(old(self).nodes@),
                export_map_view(old(self).file_export_map@), resolved_view(resolved_imports@), file_segments@.len() as int)),
    {
        let ghost fs = file_segments@;
        let ghost ids = node_ids(self.nodes@);
        let ghost fem = export_map_view(self.file_export_map@);
        let ghost rv = resolved_view(resolved_imports@);
        let ghost e0 = edge_pairs(self.edges@);
        assert(e0 =~= e0.union(inter_pairs(fs, ids, fem, rv, 0)));
        let mut e: usize = 0;
        while e < file_segments.len()
            invariant
                fs == file_segments@,
                self.wf(),
                exports_in_range(self.file_export_map@, self.nodes@.len()),
                self.nodes@ == old(self).nodes@,
                self.file_export_map@ == old(self).file_export_map@,
                ids == node_ids(self.nodes@),
                fem == export_map_view(self.file_export_map@),
                rv == resolved_view(resolved_imports@),
                forall|e1: int, j: int| 0 <= e1 < fs.len() && 0 <= j < fs[e1].1@.len()
                    ==> #[trigger] last_index(ids, SegmentId { file_id: fs[e1].0, segment_idx: j as usize }, self.nodes@.len() as int) matches Some(_),
                0 <= e <= fs.len(),
                edge_pairs(self.edges@) == e0.union(inter_pairs(fs, ids, fem, rv, e as int)),
            decreases fs.len() - e,
        {
            let file_id = file_segments[e].0;
            let segs = file_segments[e].1;
            let ghost base = edge_pairs(self.edges@);
            assert(base =~= base.union(seg_pairs(fs, ids, fem, rv, e as int, 0)));
            let mut j: usize = 0;
            while j < segs.len()
                invariant
                    fs == file_segments@,
                    e < fs.len(),
                    segs@ == fs[e as int].1@,
                    file_id == fs[e as int].0,
                    self.wf(),
                    exports_in_range(self.file_export_map@, self.nodes@.len()),
                    self.nodes@ == old(self).nodes@,
                    self.file_export_map@ == old(self).file_export_map@,
                    ids == node_ids(self.nodes@),
                    fem == export_map_view(self.file_export_map@),
                    rv == resolved_view(resolved_imports@),
                    forall|e1: int, j1: int| 0 <= e1 < fs.len() && 0 <= j1 < fs[e1].1@.len()
                        ==> #[trigger] last_index(ids, SegmentId { file_id: fs[e1].0, segment_idx: j1 as usize }, self.nodes@.len() as int) matches Some(_),
                    0 <= j <= segs@.len(),
                    edge_pairs(self.edges@) == base.union(seg_pairs(fs, ids, fem, rv, e as int, j as int)),
                decreases segs@.len() - j,
            {
                let sid = SegmentId::new(file_id, j);
                assert(last_index(ids, SegmentId { file_id: fs[e as int].0, segment_idx: (j as int) as usize },
                    self.nodes@.len() as int) matches Some(_));
                assert(sid == SegmentId { file_id: fs[e as int].0, segment_idx: (j as int) as usize });
                proof { lemma_last_index_range(ids, sid, self.nodes@.len() as int); }
                let from = match self.node_index(&sid) {
                    Some(n) => n,
                    None => {
                        let ghost i = last_index(ids, sid, self.nodes@.len() as int)->0;
                        assert(self.nodes@[i].id == sid);
                        j = j + 1;
                        continue;
                    },
                };
                proof { lemma_last_index(ids, sid, self.nodes@.len() as int, from as int); }
                let ghost before = edge_pairs(self.edges@);
                self.add_edges_for_deps(file_id, from, &segs[j].module_deps, resolved_imports);
                assert(edge_pairs(self.edges@) =~= base.union(seg_pairs(fs, ids, fem, rv, e as int, j + 1)));
                j = j + 1;
            }
            assert(edge_pairs(self.edges@) =~= e0.union(inter_pairs(fs, ids, fem, rv, e + 1)));
            e = e + 1;
        }
    }
}

} // verus!
