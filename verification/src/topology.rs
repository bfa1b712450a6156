//! The graph that routes are computed over, and what a route is.
//!
//! A gateway knows its own connected direct peers and, from the
//! link-state database, the neighbors that other nodes advertise. Both
//! together form a directed graph in which every edge costs one hop. The
//! route to a destination is the shortest walk from the source; where
//! several predecessors at the same distance lead to a node, the one whose
//! identifier sorts last is taken.

use crate::node_id::{
    id_before, lemma_id_before_connected, lemma_id_before_irreflexive, NodeIdView,
};
use crate::types::LsaView;
use vstd::prelude::*;

verus! {

/// The nodes that the advertisements of `lsas` list as neighbors.
pub open spec fn advertised_nodes(lsas: Seq<LsaView>) -> Set<NodeIdView>
    decreases lsas.len(),
{
    if lsas.len() == 0 {
        Set::empty()
    } else {
        advertised_nodes(lsas.drop_last()).union(lsas.last().neighbors.to_set())
    }
}

proof fn lemma_advertised_nodes_finite(lsas: Seq<LsaView>)
    ensures
        advertised_nodes(lsas).finite(),
    decreases lsas.len(),
{
    broadcast use vstd::seq_lib::seq_to_set_is_finite;
    broadcast use vstd::set::group_set_axioms;

    if lsas.len() > 0 {
        lemma_advertised_nodes_finite(lsas.drop_last());
    }
}

proof fn lemma_advertised_nodes_hold(lsas: Seq<LsaView>, j: int, node: NodeIdView)
    requires
        0 <= j < lsas.len(),
        lsas[j].neighbors.contains(node),
    ensures
        advertised_nodes(lsas).contains(node),
    decreases lsas.len(),
{
    if j < lsas.len() - 1 {
        lemma_advertised_nodes_hold(lsas.drop_last(), j, node);
    }
}

/// The graph seen from one source node.
pub struct Topology {
    /// The node that routes start from.
    pub source: NodeIdView,
    /// The connected direct peers of the source.
    pub direct: Seq<NodeIdView>,
    /// The advertisements of the link-state database.
    pub lsas: Seq<LsaView>,
}

impl Topology {
    /// Some advertisement originated by `from` lists `to` as a neighbor.
    pub open spec fn advertised(self, from: NodeIdView, to: NodeIdView) -> bool {
        exists|j: int|
            0 <= j < self.lsas.len() && (#[trigger] self.lsas[j]).node_id == from
                && self.lsas[j].neighbors.contains(to)
    }

    /// There is an edge from `from` to `to`: `from` is the source and `to`
    /// one of its connected direct peers, or `from` advertises `to`.
    pub open spec fn edge(self, from: NodeIdView, to: NodeIdView) -> bool {
        (from == self.source && self.direct.contains(to)) || self.advertised(from, to)
    }

    /// `node` can be reached from the source over at most `hops` edges.
    pub open spec fn within(self, node: NodeIdView, hops: nat) -> bool
        decreases hops,
    {
        node == self.source || (hops > 0 && exists|via: NodeIdView|
            #![trigger self.edge(via, node)]
            self.within(via, (hops - 1) as nat) && self.edge(via, node))
    }

    /// `node` can be reached from the source at all.
    pub open spec fn reachable(self, node: NodeIdView) -> bool {
        exists|hops: nat| self.within(node, hops)
    }

    /// The shortest walk from the source to `node` has exactly `hops`
    /// edges.
    pub open spec fn at_depth(self, node: NodeIdView, hops: nat) -> bool {
        self.within(node, hops) && (hops == 0 || !self.within(node, (hops - 1) as nat))
    }

    /// `parent` is the predecessor that a route takes into `child`, a node
    /// `hops` edges away from the source: it lies one hop nearer, has an
    /// edge to `child`, and no other such node sorts after it.
    pub open spec fn best_parent(self, parent: NodeIdView, child: NodeIdView, hops: nat) -> bool {
        &&& hops > 0
        &&& self.at_depth(parent, (hops - 1) as nat)
        &&& self.edge(parent, child)
        &&& forall|other: NodeIdView|
            #![trigger self.edge(other, child)]
            self.at_depth(other, (hops - 1) as nat) && self.edge(other, child) ==> !id_before(
                parent,
                other,
            )
    }

    /// The node before the last one on the walk that leaves the source and
    /// then visits `path`.
    pub open spec fn before_last(self, path: Seq<NodeIdView>) -> NodeIdView {
        if path.len() <= 1 {
            self.source
        } else {
            path[path.len() - 2]
        }
    }

    /// `path` is the route to `destination`: the nodes after the source,
    /// the destination last. The empty path is the route from the source
    /// to itself. Otherwise the destination lies exactly `path.len()` hops
    /// away, the node before it is its best parent, and the path up to
    /// that node is the route to it.
    pub open spec fn is_route(self, destination: NodeIdView, path: Seq<NodeIdView>) -> bool
        decreases path.len(),
    {
        if path.len() == 0 {
            destination == self.source
        } else {
            &&& path.last() == destination
            &&& self.at_depth(destination, path.len())
            &&& self.best_parent(self.before_last(path), destination, path.len())
            &&& self.is_route(self.before_last(path), path.drop_last())
        }
    }

    /// The route to `destination`, or `None` if it cannot be reached.
    pub open spec fn route(self, destination: NodeIdView) -> Option<Seq<NodeIdView>> {
        if self.reachable(destination) {
            Some(choose|path: Seq<NodeIdView>| self.is_route(destination, path))
        } else {
            None
        }
    }

    /// `path` leads from the source to `destination` along edges of the
    /// graph: the first node is a successor of the source, each further
    /// node a successor of the one before it, and the last node is the
    /// destination. The empty path leads from the source to itself.
    pub open spec fn is_walk(self, destination: NodeIdView, path: Seq<NodeIdView>) -> bool {
        if path.len() == 0 {
            destination == self.source
        } else {
            &&& path.last() == destination
            &&& self.edge(self.source, path[0])
            &&& forall|i: int|
                0 <= i < path.len() - 1 ==> self.edge(#[trigger] path[i], path[i + 1])
        }
    }

    /// Every node that the graph mentions: the source and all targets of
    /// edges.
    pub open spec fn nodes(self) -> Set<NodeIdView> {
        self.direct.to_set().union(advertised_nodes(self.lsas)).insert(self.source)
    }

    /// The graph mentions finitely many nodes.
    pub proof fn lemma_nodes_finite(self)
        ensures
            self.nodes().finite(),
    {
        broadcast use vstd::seq_lib::seq_to_set_is_finite;
        broadcast use vstd::set::group_set_axioms;

        lemma_advertised_nodes_finite(self.lsas);
    }

    /// The source and every target of an edge are nodes of the graph.
    pub proof fn lemma_edge_target_is_node(self, from: NodeIdView, to: NodeIdView)
        requires
            self.edge(from, to),
        ensures
            self.nodes().contains(to),
            self.nodes().contains(self.source),
    {
        if self.advertised(from, to) {
            let j = choose|j: int|
                0 <= j < self.lsas.len() && (#[trigger] self.lsas[j]).node_id == from
                    && self.lsas[j].neighbors.contains(to);
            lemma_advertised_nodes_hold(self.lsas, j, to);
        }
    }

    /// What is within some number of hops is within any greater number.
    pub proof fn lemma_within_grows(self, node: NodeIdView, hops: nat, more: nat)
        requires
            self.within(node, hops),
            hops <= more,
        ensures
            self.within(node, more),
        decreases hops,
    {
        if node != self.source {
            let via = choose|via: NodeIdView|
                #![trigger self.edge(via, node)]
                self.within(via, (hops - 1) as nat) && self.edge(via, node);
            self.lemma_within_grows(via, (hops - 1) as nat, (more - 1) as nat);
        }
    }

    /// Following an edge costs one hop.
    pub proof fn lemma_within_step(self, via: NodeIdView, node: NodeIdView, hops: nat)
        requires
            self.within(via, hops),
            self.edge(via, node),
        ensures
            self.within(node, hops + 1),
    {
    }

    /// A node other than the source is entered over an edge from a node
    /// one hop nearer.
    pub proof fn lemma_within_enters(self, node: NodeIdView, hops: nat) -> (via: NodeIdView)
        requires
            self.within(node, hops),
            node != self.source,
        ensures
            hops > 0,
            self.within(via, (hops - 1) as nat),
            self.edge(via, node),
    {
        choose|via: NodeIdView|
            #![trigger self.edge(via, node)]
            self.within(via, (hops - 1) as nat) && self.edge(via, node)
    }

    /// Every node within some number of hops has a depth, and it is no
    /// greater.
    pub proof fn lemma_depth_exists(self, node: NodeIdView, hops: nat) -> (depth: nat)
        requires
            self.within(node, hops),
        ensures
            depth <= hops,
            self.at_depth(node, depth),
        decreases hops,
    {
        if hops == 0 {
            0
        } else if self.within(node, (hops - 1) as nat) {
            self.lemma_depth_exists(node, (hops - 1) as nat)
        } else {
            hops
        }
    }

    /// A node has one depth only.
    pub proof fn lemma_depth_unique(self, node: NodeIdView, a: nat, b: nat)
        requires
            self.at_depth(node, a),
            self.at_depth(node, b),
        ensures
            a == b,
    {
        if a < b {
            self.lemma_within_grows(node, a, (b - 1) as nat);
        } else if b < a {
            self.lemma_within_grows(node, b, (a - 1) as nat);
        }
    }

    /// The source, and only the source, lies at depth zero.
    pub proof fn lemma_depth_zero(self, node: NodeIdView)
        ensures
            self.at_depth(node, 0) <==> node == self.source,
    {
    }

    /// A route is a walk along edges of the graph that ends at its
    /// destination, so its destination is reachable.
    pub proof fn lemma_route_is_walk(self, destination: NodeIdView, path: Seq<NodeIdView>)
        requires
            self.is_route(destination, path),
        ensures
            self.is_walk(destination, path),
            self.reachable(destination),
            path.len() == 0 <==> destination == self.source,
        decreases path.len(),
    {
        if path.len() == 0 {
            assert(self.within(destination, 0));
        } else {
            let front = path.drop_last();
            let parent = self.before_last(path);
            self.lemma_route_is_walk(parent, front);
            assert(self.within(destination, path.len()));
            if destination == self.source {
                assert(self.within(destination, (path.len() - 1) as nat));
            }
            if front.len() == 0 {
                assert(path[0] == destination);
            } else {
                assert(front.last() == parent);
                assert(path[0] == front[0]);
                assert forall|i: int| 0 <= i < path.len() - 1 implies self.edge(
                    #[trigger] path[i],
                    path[i + 1],
                ) by {
                    if i < front.len() - 1 {
                        assert(self.edge(front[i], front[i + 1]));
                    }
                }
            }
        }
    }

    /// A walk reaches its destination within as many hops as it has nodes.
    pub proof fn lemma_walk_within(self, destination: NodeIdView, path: Seq<NodeIdView>)
        requires
            self.is_walk(destination, path),
        ensures
            self.within(destination, path.len()),
        decreases path.len(),
    {
        if path.len() == 1 {
            assert(self.within(self.source, 0));
            self.lemma_within_step(self.source, destination, 0);
        } else if path.len() > 1 {
            let front = path.drop_last();
            assert(front.last() == path[path.len() - 2]);
            assert(front[0] == path[0]);
            assert forall|i: int| 0 <= i < front.len() - 1 implies self.edge(
                #[trigger] front[i],
                front[i + 1],
            ) by {
                assert(self.edge(path[i], path[i + 1]));
            }
            self.lemma_walk_within(front.last(), front);
            assert(self.edge(path[path.len() - 2], path[path.len() - 2 + 1]));
            self.lemma_within_step(front.last(), destination, front.len());
        }
    }

    /// No walk to the destination is shorter than the route.
    pub proof fn lemma_route_is_shortest(
        self,
        destination: NodeIdView,
        route: Seq<NodeIdView>,
        walk: Seq<NodeIdView>,
    )
        requires
            self.is_route(destination, route),
            self.is_walk(destination, walk),
        ensures
            route.len() <= walk.len(),
    {
        self.lemma_walk_within(destination, walk);
        if walk.len() < route.len() {
            self.lemma_within_grows(destination, walk.len(), (route.len() - 1) as nat);
        }
    }

    /// A destination has one route only.
    pub proof fn lemma_route_unique(
        self,
        destination: NodeIdView,
        a: Seq<NodeIdView>,
        b: Seq<NodeIdView>,
    )
        requires
            self.is_route(destination, a),
            self.is_route(destination, b),
        ensures
            a == b,
        decreases a.len(),
    {
        if a.len() == 0 || b.len() == 0 {
            self.lemma_route_is_walk(destination, a);
            self.lemma_route_is_walk(destination, b);
            assert(a =~= b);
        } else {
            self.lemma_depth_unique(destination, a.len(), b.len());
            let pa = self.before_last(a);
            let pb = self.before_last(b);
            assert(self.edge(pa, destination) && self.edge(pb, destination));
            lemma_id_before_connected(pa, pb);
            assert(pa == pb);
            self.lemma_route_unique(pa, a.drop_last(), b.drop_last());
            assert(a =~= a.drop_last().push(a.last()));
            assert(b =~= b.drop_last().push(b.last()));
        }
    }

    /// A path that is a route to `destination` is the route to it.
    pub proof fn lemma_route_found(self, destination: NodeIdView, path: Seq<NodeIdView>)
        requires
            self.is_route(destination, path),
        ensures
            self.route(destination) == Some(path),
    {
        self.lemma_route_is_walk(destination, path);
        let chosen = choose|chosen: Seq<NodeIdView>| self.is_route(destination, chosen);
        self.lemma_route_unique(destination, chosen, path);
    }

    /// The route to a successor of the source is the successor alone.
    pub proof fn lemma_successor_route(self, destination: NodeIdView)
        requires
            self.edge(self.source, destination),
            destination != self.source,
        ensures
            self.route(destination) == Some(seq![destination]),
    {
        let path = seq![destination];
        assert(self.within(self.source, 0));
        self.lemma_within_step(self.source, destination, 0);
        assert forall|other: NodeIdView|
            #![trigger self.edge(other, destination)]
            self.at_depth(other, 0) && self.edge(other, destination) implies !id_before(
            self.source,
            other,
        ) by {
            lemma_id_before_irreflexive(self.source);
        }
        assert(path.drop_last() =~= Seq::<NodeIdView>::empty());
        assert(self.is_route(self.source, path.drop_last()));
        assert(self.is_route(destination, path));
        self.lemma_route_found(destination, path);
    }

    /// A node other than the source that no edge leads to is out of
    /// reach.
    pub proof fn lemma_without_edge_unreachable(self, destination: NodeIdView)
        requires
            destination != self.source,
            !self.direct.contains(destination),
            forall|j: int|
                0 <= j < self.lsas.len() ==> !(#[trigger] self.lsas[j]).neighbors.contains(
                    destination,
                ),
        ensures
            !self.reachable(destination),
            self.route(destination) is None,
    {
        if self.reachable(destination) {
            let hops = choose|hops: nat| self.within(destination, hops);
            let via = self.lemma_within_enters(destination, hops);
            assert(self.advertised(via, destination));
        }
    }
}

} // verus!
