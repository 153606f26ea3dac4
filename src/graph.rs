use vstd::prelude::*;
use vstd::std_specs::iter::IteratorSpec;
use vstd::string::to_string_from_display_ensures;
use vstd::string::StringExecFns;

verus! {

/// A node payload, owned by the graph while the node exists.
#[derive(Debug, PartialEq, Clone)]
pub struct Node<T>(pub T);

/// The outgoing targets of one node, in the order the edges were added.
pub type EdgeData = Vec<usize>;

/// `add_edge` was given an endpoint that is not a node of the graph.
#[derive(Debug, PartialEq, Eq, Clone, Copy)]
pub struct EdgeAdditionError {
    pub from: usize,
    pub to: usize,
    pub node_count: usize,
}

/// An edge query was given an index that is not a node of the graph.
#[derive(Debug, PartialEq, Eq, Clone, Copy)]
pub struct EdgeGetError {
    pub index: usize,
    pub node_count: usize,
}

/// The abstract value of a graph: the payloads in index order, and for each
/// node the targets of its outgoing edges in insertion order.
pub ghost struct GraphView<T> {
    pub nodes: Seq<T>,
    pub edges: Seq<Seq<usize>>,
}

/// How one edge target is renumbered when node `k` is removed: an edge into
/// `k` is dropped, a target past `k` moves down by one, any other is kept.
pub open spec fn shift_target(k: usize) -> spec_fn(usize) -> Option<usize> {
    |t: usize|
        if t == k {
            None
        } else if t > k {
            Some((t - 1) as usize)
        } else {
            Some(t)
        }
}

/// A target list after node `k` is removed.
pub open spec fn renumbered(targets: Seq<usize>, k: usize) -> Seq<usize> {
    targets.filter_map(shift_target(k))
}

/// Maps each edge of `src` that points at `idx` to `src`.
pub open spec fn hit(idx: usize, src: usize) -> spec_fn(usize) -> Option<usize> {
    |t: usize|
        if t == idx {
            Some(src)
        } else {
            None
        }
}

/// One copy of `src` for every edge in `targets` that points at `idx`.
pub open spec fn sources_into(targets: Seq<usize>, idx: usize, src: usize) -> Seq<usize> {
    targets.filter_map(hit(idx, src))
}

/// The sources of all edges into `idx`, in ascending source order, one entry
/// per edge.
pub open spec fn incoming(edges: Seq<Seq<usize>>, idx: usize) -> Seq<usize>
    decreases edges.len(),
{
    if edges.len() == 0 {
        Seq::empty()
    } else {
        incoming(edges.drop_last(), idx) + sources_into(edges.last(), idx, (edges.len() - 1) as usize)
    }
}

/// The characters of each string.
pub open spec fn texts_of(strings: Seq<String>) -> Seq<Seq<char>> {
    strings.map_values(|s: String| s@)
}

/// One rendered edge: `<from> -> <to>` and a line break.
pub open spec fn edge_line(from: Seq<char>, to: Seq<char>) -> Seq<char> {
    from + seq![' ', '-', '>', ' '] + to + seq!['\n']
}

/// The lines for the edges leaving a node shown as `from`, in edge order,
/// each target shown by its entry in `labels`.
pub open spec fn node_lines(targets: Seq<usize>, from: Seq<char>, labels: Seq<Seq<char>>) -> Seq<
    char,
>
    decreases targets.len(),
{
    if targets.len() == 0 {
        Seq::empty()
    } else {
        node_lines(targets.drop_last(), from, labels) + edge_line(from, labels[targets.last() as int])
    }
}

/// The lines for every edge, nodes in index order, each node shown by its
/// entry in `labels`.
pub open spec fn rendering(edges: Seq<Seq<usize>>, labels: Seq<Seq<char>>) -> Seq<char>
    decreases edges.len(),
{
    if edges.len() == 0 {
        Seq::empty()
    } else {
        rendering(edges.drop_last(), labels) + node_lines(
            edges.last(),
            labels[edges.len() - 1],
            labels,
        )
    }
}

impl<T> GraphView<T> {
    /// Every node has an edge list, and every edge target names a node.
    pub open spec fn well_formed(self) -> bool {
        &&& self.edges.len() == self.nodes.len()
        &&& forall|i: int, j: int|
            0 <= i < self.edges.len() && 0 <= j < self.edges[i].len() ==> #[trigger] self.edges[i][j]
                < self.nodes.len()
    }

    /// The graph with `p` appended as a node without edges.
    pub open spec fn add_node(self, p: T) -> GraphView<T> {
        GraphView { nodes: self.nodes.push(p), edges: self.edges.push(Seq::empty()) }
    }

    /// The graph with the edge `from -> to` appended to the edges of `from`.
    pub open spec fn add_edge(self, from: int, to: usize) -> GraphView<T> {
        GraphView { nodes: self.nodes, edges: self.edges.update(from, self.edges[from].push(to)) }
    }

    /// The targets of the edges leaving `idx`, in insertion order.
    pub open spec fn edges_from(self, idx: int) -> Seq<usize> {
        self.edges[idx]
    }

    /// The sources of the edges into `idx`, in ascending order, one per edge.
    pub open spec fn edges_to(self, idx: usize) -> Seq<usize> {
        incoming(self.edges, idx)
    }

    /// The graph without its last node, or the graph itself when it is empty.
    pub open spec fn pop(self) -> GraphView<T> {
        if self.nodes.len() == 0 {
            self
        } else {
            self.remove_node(self.nodes.len() - 1)
        }
    }

    /// The graph with node `k` and every edge into or out of it deleted, and
    /// every later node moved down by one.
    pub open spec fn remove_node(self, k: int) -> GraphView<T> {
        GraphView {
            nodes: self.nodes.remove(k),
            edges: self.edges.remove(k).map_values(|l: Seq<usize>| renumbered(l, k as usize)),
        }
    }
}

/// Renumbering for the removal of `k < n` takes a list whose targets all lie
/// below `n` to one whose targets all lie below `n - 1`.
proof fn lemma_renumbered_bound(targets: Seq<usize>, k: usize, n: int)
    requires
        k < n,
        forall|j: int| 0 <= j < targets.len() ==> #[trigger] targets[j] < n,
    ensures
        forall|j: int|
            0 <= j < renumbered(targets, k).len() ==> #[trigger] renumbered(targets, k)[j] < n - 1,
    decreases targets.len(),
{
    if targets.len() > 0 {
        let rest = targets.drop_last();
        assert forall|j: int| 0 <= j < rest.len() implies #[trigger] rest[j] < n by {
            assert(rest[j] == targets[j]);
        }
        lemma_renumbered_bound(rest, k, n);
        let t = targets.last();
        let r = renumbered(targets, k);
        let r0 = renumbered(rest, k);
        assert forall|j: int| 0 <= j < r.len() implies #[trigger] r[j] < n - 1 by {
            if j < r0.len() {
                assert(r[j] == r0[j]);
            } else {
                assert(t < n);
            }
        }
    }
}

/// Removing a node of a well-formed graph leaves it well formed.
pub proof fn lemma_remove_node_well_formed<T>(g: GraphView<T>, k: usize)
    requires
        g.well_formed(),
        k < g.nodes.len(),
    ensures
        g.remove_node(k as int).well_formed(),
{
    let h = g.remove_node(k as int);
    let rest = g.edges.remove(k as int);
    let n = g.nodes.len() as int;
    assert forall|i: int, j: int|
        0 <= i < h.edges.len() && 0 <= j < h.edges[i].len() implies #[trigger] h.edges[i][j]
        < h.nodes.len() by {
        let src = if i < k { i } else { i + 1 };
        assert(rest[i] == g.edges[src]);
        assert forall|m: int| 0 <= m < rest[i].len() implies #[trigger] rest[i][m] < n by {
            assert(rest[i][m] == g.edges[src][m]);
        }
        lemma_renumbered_bound(rest[i], k, n);
    }
}

/// `targets` with the edges into `k` dropped and the targets past `k` moved
/// down by one.
fn renumber_targets(targets: &Vec<usize>, k: usize) -> (r: Vec<usize>)
    ensures
        r@ == renumbered(targets@, k),
{
    let mut out: Vec<usize> = Vec::new();
    let mut i: usize = 0;
    while i < targets.len()
        invariant
            0 <= i <= targets.len(),
            out@ == targets@.take(i as int).filter_map(shift_target(k)),
        decreases targets.len() - i,
    {
        let t = targets[i];
        proof {
            targets@.lemma_filter_map_take_succ(shift_target(k), i as int);
        }
        if t > k {
            out.push(t - 1);
        } else if t < k {
            out.push(t);
        }
        i += 1;
    }
    proof {
        assert(targets@.take(targets@.len() as int) =~= targets@);
    }
    out
}

/// A directed graph whose nodes are addressed by dense positions `0..len`.
#[derive(PartialEq, Clone)]
pub struct Graph<T> {
    nodes: Vec<Node<T>>,
    edges: Vec<EdgeData>,
}

impl<T> View for Graph<T> {
    type V = GraphView<T>;

    closed spec fn view(&self) -> GraphView<T> {
        GraphView {
            nodes: self.nodes@.map_values(|n: Node<T>| n.0),
            edges: self.edges@.map_values(|e: EdgeData| e@),
        }
    }
}

impl<T> Default for Graph<T> {
    /// An empty graph.
    fn default() -> (g: Self)
        ensures
            g.well_formed(),
            g@.nodes == Seq::<T>::empty(),
            g@.edges == Seq::<Seq<usize>>::empty(),
    {
        Self::new()
    }
}

impl<T> Graph<T> {
    /// The graph's invariant: its abstract value is well formed.
    pub open spec fn well_formed(&self) -> bool {
        self@.well_formed()
    }

    /// An empty graph.
    pub fn new() -> (g: Self)
        ensures
            g.well_formed(),
            g@.nodes == Seq::<T>::empty(),
            g@.edges == Seq::<Seq<usize>>::empty(),
    {
        let g = Graph { nodes: Vec::new(), edges: Vec::new() };
        proof {
            assert(g@.nodes =~= Seq::<T>::empty());
            assert(g@.edges =~= Seq::<Seq<usize>>::empty());
        }
        g
    }

    /// Appends a node with no edges and returns its index. Earlier nodes keep
    /// their indices.
    pub fn add_node(&mut self, node: T) -> (idx: usize)
        requires
            old(self).well_formed(),
            old(self)@.nodes.len() < usize::MAX,
        ensures
            final(self).well_formed(),
            idx == old(self)@.nodes.len(),
            final(self)@ == old(self)@.add_node(node),
    {
        let index = self.nodes.len();
        self.nodes.push(Node(node));
        self.edges.push(EdgeData::new());
        proof {
            assert(self@.nodes =~= old(self)@.add_node(node).nodes);
            assert(self@.edges =~= old(self)@.add_node(node).edges);
        }
        index
    }

    /// The node at `node_idx`, or `None` when there is no such node.
    pub fn get_node(&self, node_idx: usize) -> (r: Option<&Node<T>>)
        requires
            self.well_formed(),
        ensures
            r is Some <==> node_idx < self@.nodes.len(),
            r is Some ==> r.unwrap().0 == self@.nodes[node_idx as int],
    {
        if node_idx < self.nodes.len() {
            Some(&self.nodes[node_idx])
        } else {
            None
        }
    }
    /// The payloads in index order.
    pub fn nodes(&self) -> (it: std::slice::Iter<'_, Node<T>>)
        ensures
            it.remaining().len() == self@.nodes.len(),
            forall|i: int| 0 <= i < self@.nodes.len() ==> (#[trigger] it.remaining()[i]).0 == self@.nodes[i],
    {
        self.nodes.as_slice().iter()
    }

    /// Adds the edge `from -> to`, after any edges already leaving `from`.
    /// Self-loops and repeated edges are stored like any other edge. Fails,
    /// leaving the graph unchanged, when either endpoint is not a node.
    pub fn add_edge(&mut self, from: usize, to: usize) -> (r: Result<(), EdgeAdditionError>)
        requires
            old(self).well_formed(),
        ensures
            final(self).well_formed(),
            r is Ok <==> from < old(self)@.nodes.len() && to < old(self)@.nodes.len(),
            r is Ok ==> final(self)@ == old(self)@.add_edge(from as int, to),
            r is Err ==> final(self)@ == old(self)@ && r == Err::<(), EdgeAdditionError>(
                (EdgeAdditionError { from, to, node_count: old(self)@.nodes.len() as usize }),
            ),
    {
        let node_count = self.nodes.len();
        if to >= node_count || from >= node_count {
            return Err(EdgeAdditionError { from, to, node_count });
        }
        self.edges[from].push(to);
        proof {
            let post = old(self)@.edges.update(from as int, old(self)@.edges[from as int].push(to));
            assert(self@.nodes =~= old(self)@.nodes);
            assert(self@.edges =~= post);
            assert forall|i: int, j: int|
                0 <= i < self@.edges.len() && 0 <= j < self@.edges[i].len() implies #[trigger] self@.edges[i][j]
                < self@.nodes.len() by {
                if i != from as int {
                    assert(self@.edges[i] == old(self)@.edges[i]);
                } else if j < old(self)@.edges[i].len() {
                    assert(self@.edges[i][j] == old(self)@.edges[i][j]);
                }
            }
        }
        Ok(())
    }

    /// The targets of the edges leaving `idx`, in insertion order.
    pub fn get_edges_from(&self, idx: usize) -> (r: Result<Vec<usize>, EdgeGetError>)
        requires
            self.well_formed(),
        ensures
            r is Ok <==> idx < self@.nodes.len(),
            r is Ok ==> r.unwrap()@ == self@.edges_from(idx as int),
            r is Err ==> r == Err::<Vec<usize>, EdgeGetError>(
                (EdgeGetError { index: idx, node_count: self@.nodes.len() as usize }),
            ),
    {
        if idx >= self.nodes.len() {
            return Err(EdgeGetError { index: idx, node_count: self.nodes.len() });
        }
        Ok(self.edges[idx].clone())
    }
    /// The sources of the edges into `idx`, in ascending source order, one
    /// entry per edge.
    pub fn get_edges_to(&self, idx: usize) -> (r: Result<Vec<usize>, EdgeGetError>)
        requires
            self.well_formed(),
        ensures
            r is Ok <==> idx < self@.nodes.len(),
            r is Ok ==> r.unwrap()@ == self@.edges_to(idx),
            r is Err ==> r == Err::<Vec<usize>, EdgeGetError>(
                (EdgeGetError { index: idx, node_count: self@.nodes.len() as usize }),
            ),
    {
        if idx >= self.nodes.len() {
            return Err(EdgeGetError { index: idx, node_count: self.nodes.len() });
        }
        let ghost edges = self@.edges;
        let mut sources: Vec<usize> = Vec::new();
        let mut src: usize = 0;
        while src < self.edges.len()
            invariant
                self.well_formed(),
                edges == self@.edges,
                0 <= src <= edges.len(),
                sources@ == incoming(edges.take(src as int), idx),
            decreases self.edges.len() - src,
        {
            let targets = &self.edges[src];
            assert(targets@ == edges[src as int]);
            let mut j: usize = 0;
            while j < targets.len()
                invariant
                    0 <= src < edges.len(),
                    targets@ == edges[src as int],
                    0 <= j <= targets.len(),
                    sources@ == incoming(edges.take(src as int), idx) + targets@.take(
                        j as int,
                    ).filter_map(hit(idx, src)),
                decreases targets.len() - j,
            {
                proof {
                    targets@.lemma_filter_map_take_succ(hit(idx, src), j as int);
                }
                if targets[j] == idx {
                    sources.push(src);
                }
                j += 1;
            }
            proof {
                assert(targets@.take(targets@.len() as int) =~= targets@);
                assert(edges.take(src + 1).drop_last() =~= edges.take(src as int));
                assert(sources@ =~= incoming(edges.take(src + 1), idx));
            }
            src += 1;
        }
        proof {
            assert(edges.take(edges.len() as int) =~= edges);
        }
        Ok(sources)
    }

    /// The edges touching `idx`: first the targets of its outgoing edges,
    /// then the sources of its incoming ones.
    pub fn get_edges(&self, idx: usize) -> (r: Result<Vec<usize>, EdgeGetError>)
        requires
            self.well_formed(),
        ensures
            r is Ok <==> idx < self@.nodes.len(),
            r is Ok ==> r.unwrap()@ == self@.edges_from(idx as int) + self@.edges_to(idx),
            r is Err ==> r == Err::<Vec<usize>, EdgeGetError>(
                (EdgeGetError { index: idx, node_count: self@.nodes.len() as usize }),
            ),
    {
        let mut result: Vec<usize> = match self.get_edges_from(idx) {
            Ok(from) => from,
            Err(e) => return Err(e),
        };
        let mut to: Vec<usize> = match self.get_edges_to(idx) {
            Ok(to) => to,
            Err(e) => return Err(e),
        };
        result.append(&mut to);
        Ok(result)
    }

    /// Removes node `idx` and every edge into or out of it, and returns its
    /// payload. Every later node moves down by one index, and the edges are
    /// renumbered with it.
    pub fn remove_node(&mut self, idx: usize) -> (removed: Node<T>)
        requires
            old(self).well_formed(),
            idx < old(self)@.nodes.len(),
        ensures
            final(self).well_formed(),
            removed.0 == old(self)@.nodes[idx as int],
            final(self)@ == old(self)@.remove_node(idx as int),
    {
        let ghost before = self@;
        let n = self.nodes.len();
        self.edges.remove(idx);
        let ghost rest = self@.edges;
        assert(rest =~= before.edges.remove(idx as int));
        let mut i: usize = 0;
        while i < self.edges.len()
            invariant
                self.nodes == old(self).nodes,
                self.edges.len() == rest.len(),
                rest.len() == n - 1,
                0 <= i <= rest.len(),
                forall|j: int| 0 <= j < i ==> #[trigger] self.edges@[j]@ == renumbered(rest[j], idx),
                forall|j: int| i <= j < rest.len() ==> #[trigger] self.edges@[j]@ == rest[j],
            decreases rest.len() - i,
        {
            let fresh = renumber_targets(&self.edges[i], idx);
            self.edges.set(i, fresh);
            i += 1;
        }
        let removed = self.nodes.remove(idx);
        proof {
            let after = before.remove_node(idx as int);
            assert(self@.nodes =~= after.nodes);
            assert(self@.edges =~= after.edges);
            lemma_remove_node_well_formed(before, idx);
        }
        removed
    }

    /// Removes the node with the highest index and returns its payload, or
    /// returns `None` and leaves the graph unchanged when it is empty.
    pub fn pop(&mut self) -> (r: Option<Node<T>>)
        requires
            old(self).well_formed(),
        ensures
            final(self).well_formed(),
            r is None <==> old(self)@.nodes.len() == 0,
            r is Some ==> r.unwrap().0 == old(self)@.nodes.last(),
            final(self)@ == old(self)@.pop(),
    {
        if self.nodes.is_empty() {
            return None;
        }
        let last = self.nodes.len() - 1;
        Some(self.remove_node(last))
    }
    /// One line `<from> -> <to>` per edge, nodes in index order and each
    /// node's edges in insertion order, every payload shown by `labels`.
    pub fn render_with(&self, labels: &Vec<String>) -> (r: String)
        requires
            self.well_formed(),
            labels.len() == self@.nodes.len(),
        ensures
            r@ == rendering(self@.edges, texts_of(labels@)),
    {
        let ghost edges = self@.edges;
        let ghost shown = texts_of(labels@);
        let mut out = String::new();
        proof {
            reveal_strlit(" -> ");
            reveal_strlit("\n");
            assert(out@ =~= rendering(edges.take(0), shown));
        }
        let mut src: usize = 0;
        while src < self.edges.len()
            invariant
                self.well_formed(),
                edges == self@.edges,
                shown == texts_of(labels@),
                labels.len() == edges.len(),
                0 <= src <= edges.len(),
                out@ == rendering(edges.take(src as int), shown),
                " -> "@ == seq![' ', '-', '>', ' '],
                "\n"@ == seq!['\n'],
            decreases self.edges.len() - src,
        {
            let targets = &self.edges[src];
            assert(targets@ == edges[src as int]);
            let ghost start = out@;
            let mut j: usize = 0;
            while j < targets.len()
                invariant
                    self.well_formed(),
                    edges == self@.edges,
                    0 <= src < edges.len(),
                    labels.len() == edges.len(),
                    shown == texts_of(labels@),
                    targets@ == edges[src as int],
                    0 <= j <= targets.len(),
                    out@ == start + node_lines(targets@.take(j as int), shown[src as int], shown),
                    " -> "@ == seq![' ', '-', '>', ' '],
                    "\n"@ == seq!['\n'],
                decreases targets.len() - j,
            {
                let t = targets[j];
                assert(t < edges.len());
                out.append(labels[src].as_str());
                out.append(" -> ");
                out.append(labels[t].as_str());
                out.append("\n");
                proof {
                    assert(targets@.take(j + 1).drop_last() =~= targets@.take(j as int));
                    assert(out@ =~= start + node_lines(targets@.take(j + 1), shown[src as int], shown));
                }
                j += 1;
            }
            proof {
                assert(targets@.take(targets@.len() as int) =~= targets@);
                assert(edges.take(src + 1).drop_last() =~= edges.take(src as int));
                assert(out@ =~= rendering(edges.take(src + 1), shown));
            }
            src += 1;
        }
        proof {
            assert(edges.take(edges.len() as int) =~= edges);
        }
        out
    }

    /// One line `<from> -> <to>` per edge, nodes in index order and each
    /// node's edges in insertion order, every payload shown by its `Display`.
    pub fn to_string(&self) -> (r: String) where T: std::fmt::Display
        requires
            self.well_formed(),
        ensures
            exists|labels: Seq<String>|
                #![trigger texts_of(labels)]
                labels.len() == self@.nodes.len() && (forall|i: int|
                    0 <= i < labels.len() ==> to_string_from_display_ensures::<T>(
                        &self@.nodes[i],
                        #[trigger] labels[i],
                    )) && r@ == rendering(self@.edges, texts_of(labels)),
    {
        let mut labels: Vec<String> = Vec::new();
        let mut i: usize = 0;
        while i < self.nodes.len()
            invariant
                0 <= i <= self.nodes.len(),
                labels.len() == i,
                forall|m: int|
                    0 <= m < i ==> to_string_from_display_ensures::<T>(
                        &self@.nodes[m],
                        #[trigger] labels@[m],
                    ),
            decreases self.nodes.len() - i,
        {
            labels.push(self.nodes[i].0.to_string());
            i += 1;
        }
        self.render_with(&labels)
    }
}

} // verus!
