//! The state of a shortest-path search and why each step keeps it sound.
//!
//! The search keeps one entry for every node it has discovered. It takes
//! the undone entry that is nearest to the source, among equally near ones
//! the one whose identifier sorts last, marks it done and discovers its
//! successors. Because every edge costs one hop, the distance and the
//! parent that an entry gets at discovery are final.

use crate::node_id::{
    id_before, lemma_id_before_irreflexive, lemma_id_before_transitive, same_text, sorts_before,
    NodeIdView,
};
use crate::topology::Topology;
use crate::types::texts_view;
use vstd::prelude::*;

verus! {

/// A discovered node.
pub struct Entry {
    pub id: String,
    /// Hops from the source.
    pub dist: usize,
    /// Slot of the entry from which this node was discovered.
    pub parent: usize,
    /// Whether the successors of this node have been discovered.
    pub done: bool,
}

/// The model of an `Entry`.
pub struct EntryView {
    pub id: NodeIdView,
    pub dist: nat,
    pub parent: int,
    pub done: bool,
}

impl View for Entry {
    type V = EntryView;

    open spec fn view(&self) -> EntryView {
        EntryView {
            id: self.id@,
            dist: self.dist as nat,
            parent: self.parent as int,
            done: self.done,
        }
    }
}

/// The models of `entries`, in order.
pub open spec fn entries_view(entries: Seq<Entry>) -> Seq<EntryView> {
    Seq::new(entries.len(), |i: int| entries[i]@)
}

/// The node `id` has an entry.
pub open spec fn has_entry(entries: Seq<EntryView>, id: NodeIdView) -> bool {
    exists|j: int| 0 <= j < entries.len() && (#[trigger] entries[j]).id == id
}

/// The node `id` has an entry that is done.
pub open spec fn has_done(entries: Seq<EntryView>, id: NodeIdView) -> bool {
    exists|j: int| 0 <= j < entries.len() && (#[trigger] entries[j]).id == id && entries[j].done
}

/// The search takes a node `a` at `a_hops` hops before a node `b` at
/// `b_hops` hops: nearer nodes first, and of equally near nodes the one
/// that sorts last.
pub open spec fn earlier(a_hops: nat, a: NodeIdView, b_hops: nat, b: NodeIdView) -> bool {
    a_hops < b_hops || (a_hops == b_hops && id_before(b, a))
}

pub proof fn lemma_earlier_transitive(
    a_hops: nat,
    a: NodeIdView,
    b_hops: nat,
    b: NodeIdView,
    c_hops: nat,
    c: NodeIdView,
)
    requires
        earlier(a_hops, a, b_hops, b),
        earlier(b_hops, b, c_hops, c),
    ensures
        earlier(a_hops, a, c_hops, c),
{
    if a_hops == b_hops && b_hops == c_hops {
        lemma_id_before_transitive(c, b, a);
    }
}

pub proof fn lemma_earlier_irreflexive(hops: nat, a: NodeIdView)
    ensures
        !earlier(hops, a, hops, a),
{
    lemma_id_before_irreflexive(a);
}

/// Entry `i` records the true distance of its node and, unless it is the
/// source, the parent that the route takes into it.
pub open spec fn entry_ok(topo: Topology, entries: Seq<EntryView>, i: int) -> bool {
    let e = entries[i];
    &&& topo.at_depth(e.id, e.dist)
    &&& e.dist <= i
    &&& if i == 0 {
        e.id == topo.source && e.dist == 0 && e.parent == 0
    } else {
        &&& 0 <= e.parent < i
        &&& entries[e.parent].done
        &&& entries[e.parent].dist + 1 == e.dist
        &&& topo.best_parent(entries[e.parent].id, e.id, e.dist)
    }
}

/// Every successor of the node of entry `i` has an entry.
pub open spec fn closed_at(topo: Topology, entries: Seq<EntryView>, i: int) -> bool {
    forall|to: NodeIdView| #[trigger] topo.edge(entries[i].id, to) ==> has_entry(entries, to)
}

/// Every node that the search takes before the node of entry `i` is done.
pub open spec fn prefix_at(topo: Topology, entries: Seq<EntryView>, i: int) -> bool {
    forall|node: NodeIdView, hops: nat|
        #![trigger topo.at_depth(node, hops)]
        topo.at_depth(node, hops) && earlier(hops, node, entries[i].dist, entries[i].id)
            ==> has_done(entries, node)
}

/// What holds of the entries between two steps of the search; while the
/// successors of entry `expanding` are being discovered, that entry need
/// not be closed yet.
pub open spec fn search_inv(
    topo: Topology,
    destination: NodeIdView,
    entries: Seq<EntryView>,
    expanding: int,
) -> bool {
    &&& entries.len() > 0
    &&& forall|i: int, j: int|
        0 <= i < j < entries.len() ==> (#[trigger] entries[i]).id != (#[trigger] entries[j]).id
    &&& forall|i: int| 0 <= i < entries.len() ==> entry_ok(topo, entries, i)
    &&& forall|i: int|
        0 <= i < entries.len() && (#[trigger] entries[i]).done ==> entries[i].id != destination
    &&& forall|i: int|
        0 <= i < entries.len() && (#[trigger] entries[i]).done && i != expanding ==> closed_at(
            topo,
            entries,
            i,
        )
    &&& forall|i: int|
        0 <= i < entries.len() && (#[trigger] entries[i]).done ==> prefix_at(topo, entries, i)
}

/// Entry `b` comes next: it is not done, and the search takes no other
/// undone entry before it.
pub open spec fn is_next(entries: Seq<EntryView>, b: int) -> bool {
    &&& 0 <= b < entries.len()
    &&& !entries[b].done
    &&& forall|j: int|
        0 <= j < entries.len() && !(#[trigger] entries[j]).done ==> !earlier(
            entries[j].dist,
            entries[j].id,
            entries[b].dist,
            entries[b].id,
        )
}

/// The entries after entry `b` was marked done.
pub open spec fn marked_done(entries: Seq<EntryView>, b: int) -> Seq<EntryView> {
    entries.update(b, EntryView { done: true, ..entries[b] })
}

/// The entry of a node `to` that was discovered from entry `b`.
pub open spec fn discovered(entries: Seq<EntryView>, b: int, to: NodeIdView) -> EntryView {
    EntryView { id: to, dist: entries[b].dist + 1, parent: b, done: false }
}

/// The search starts sound.
pub proof fn lemma_search_starts(topo: Topology, destination: NodeIdView)
    ensures
        search_inv(
            topo,
            destination,
            seq![EntryView { id: topo.source, dist: 0, parent: 0, done: false }],
            -1,
        ),
{
    let entries = seq![EntryView { id: topo.source, dist: 0, parent: 0, done: false }];
    assert(topo.within(topo.source, 0));
    assert(entry_ok(topo, entries, 0));
}

/// Every node that the search takes before the next entry is done
/// already.
proof fn lemma_prefix_of_next(
    topo: Topology,
    destination: NodeIdView,
    entries: Seq<EntryView>,
    b: int,
    node: NodeIdView,
    hops: nat,
)
    requires
        search_inv(topo, destination, entries, -1),
        is_next(entries, b),
        topo.at_depth(node, hops),
        earlier(hops, node, entries[b].dist, entries[b].id),
    ensures
        has_done(entries, node),
    decreases hops,
{
    assert(entry_ok(topo, entries, 0));
    if node == topo.source {
        topo.lemma_depth_zero(node);
        topo.lemma_depth_unique(node, hops, 0);
        assert(entries[0].id == node);
        if !entries[0].done {
            assert(false);
        }
    } else {
        let via = topo.lemma_within_enters(node, hops);
        let via_hops = topo.lemma_depth_exists(via, (hops - 1) as nat);
        lemma_prefix_of_next(topo, destination, entries, b, via, via_hops);
        let j = choose|j: int|
            0 <= j < entries.len() && (#[trigger] entries[j]).id == via && entries[j].done;
        assert(closed_at(topo, entries, j));
        assert(topo.edge(entries[j].id, node));
        let k = choose|k: int| 0 <= k < entries.len() && (#[trigger] entries[k]).id == node;
        assert(entry_ok(topo, entries, k));
        topo.lemma_depth_unique(node, hops, entries[k].dist);
        if !entries[k].done {
            assert(false);
        }
    }
}

/// Marking the next entry done keeps the search sound; the entry is then
/// the one being expanded.
pub proof fn lemma_search_takes(
    topo: Topology,
    destination: NodeIdView,
    entries: Seq<EntryView>,
    b: int,
)
    requires
        search_inv(topo, destination, entries, -1),
        is_next(entries, b),
        entries[b].id != destination,
    ensures
        search_inv(topo, destination, marked_done(entries, b), b),
{
    let after = marked_done(entries, b);
    assert forall|i: int| 0 <= i < after.len() implies entry_ok(topo, after, i) by {
        assert(entry_ok(topo, entries, i));
    }
    assert forall|i: int|
        0 <= i < after.len() && (#[trigger] after[i]).done && i != b implies closed_at(
        topo,
        after,
        i,
    ) by {
        assert(closed_at(topo, entries, i));
        assert forall|to: NodeIdView| #[trigger] topo.edge(after[i].id, to) implies has_entry(
            after,
            to,
        ) by {
            let j = choose|j: int| 0 <= j < entries.len() && (#[trigger] entries[j]).id == to;
            assert(after[j].id == to);
        }
    }
    assert forall|i: int| 0 <= i < after.len() && (#[trigger] after[i]).done implies prefix_at(
        topo,
        after,
        i,
    ) by {
        assert forall|node: NodeIdView, hops: nat|
            #![trigger topo.at_depth(node, hops)]
            topo.at_depth(node, hops) && earlier(
                hops,
                node,
                after[i].dist,
                after[i].id,
            ) implies has_done(after, node) by {
            if i == b {
                lemma_prefix_of_next(topo, destination, entries, b, node, hops);
            } else {
                assert(prefix_at(topo, entries, i));
            }
            let j = choose|j: int|
                0 <= j < entries.len() && (#[trigger] entries[j]).id == node && entries[j].done;
            assert(after[j].id == node && after[j].done);
        }
    }
}

/// While entry `b` is expanded, a successor without an entry lies one hop
/// beyond it, and `b` is its best parent.
proof fn lemma_discovery_is_final(
    topo: Topology,
    destination: NodeIdView,
    entries: Seq<EntryView>,
    b: int,
    to: NodeIdView,
)
    requires
        search_inv(topo, destination, entries, b),
        0 <= b < entries.len(),
        entries[b].done,
        topo.edge(entries[b].id, to),
        !has_entry(entries, to),
    ensures
        topo.at_depth(to, entries[b].dist + 1),
        topo.best_parent(entries[b].id, to, entries[b].dist + 1),
{
    let from = entries[b].id;
    let hops = entries[b].dist;
    assert(entry_ok(topo, entries, b));
    assert(entry_ok(topo, entries, 0));
    assert(prefix_at(topo, entries, b));
    topo.lemma_within_step(from, to, hops);
    if topo.within(to, hops) {
        assert(entries[0].id == topo.source);
        let via = topo.lemma_within_enters(to, hops);
        let via_hops = topo.lemma_depth_exists(via, (hops - 1) as nat);
        assert(topo.at_depth(via, via_hops) && earlier(via_hops, via, hops, from));
        let j = choose|j: int|
            0 <= j < entries.len() && (#[trigger] entries[j]).id == via && entries[j].done;
        assert(entry_ok(topo, entries, j));
        topo.lemma_depth_unique(via, via_hops, entries[j].dist);
        assert(closed_at(topo, entries, j));
        assert(topo.edge(entries[j].id, to));
        assert(false);
    }
    assert forall|other: NodeIdView|
        #![trigger topo.edge(other, to)]
        topo.at_depth(other, hops) && topo.edge(other, to) implies !id_before(from, other) by {
        if id_before(from, other) {
            assert(topo.at_depth(other, hops) && earlier(hops, other, hops, from));
            let j = choose|j: int|
                0 <= j < entries.len() && (#[trigger] entries[j]).id == other && entries[j].done;
            lemma_id_before_irreflexive(from);
            assert(closed_at(topo, entries, j));
            assert(topo.edge(entries[j].id, to));
            assert(false);
        }
    }
}

/// Discovering a successor of the entry being expanded keeps the search
/// sound.
pub proof fn lemma_search_discovers(
    topo: Topology,
    destination: NodeIdView,
    entries: Seq<EntryView>,
    b: int,
    to: NodeIdView,
)
    requires
        search_inv(topo, destination, entries, b),
        0 <= b < entries.len(),
        entries[b].done,
        topo.edge(entries[b].id, to),
        !has_entry(entries, to),
    ensures
        search_inv(topo, destination, entries.push(discovered(entries, b, to)), b),
{
    let after = entries.push(discovered(entries, b, to));
    lemma_discovery_is_final(topo, destination, entries, b, to);
    assert(entry_ok(topo, entries, b));
    assert forall|i: int| 0 <= i < after.len() implies entry_ok(topo, after, i) by {
        if i < entries.len() {
            assert(entry_ok(topo, entries, i));
        }
    }
    assert forall|i: int|
        0 <= i < after.len() && (#[trigger] after[i]).done && i != b implies closed_at(
        topo,
        after,
        i,
    ) by {
        assert(closed_at(topo, entries, i));
        assert forall|next: NodeIdView| #[trigger] topo.edge(after[i].id, next) implies has_entry(
            after,
            next,
        ) by {
            let j = choose|j: int| 0 <= j < entries.len() && (#[trigger] entries[j]).id == next;
            assert(after[j].id == next);
        }
    }
    assert forall|i: int| 0 <= i < after.len() && (#[trigger] after[i]).done implies prefix_at(
        topo,
        after,
        i,
    ) by {
        assert(prefix_at(topo, entries, i));
        assert forall|node: NodeIdView, hops: nat|
            #![trigger topo.at_depth(node, hops)]
            topo.at_depth(node, hops) && earlier(
                hops,
                node,
                after[i].dist,
                after[i].id,
            ) implies has_done(after, node) by {
            let j = choose|j: int|
                0 <= j < entries.len() && (#[trigger] entries[j]).id == node && entries[j].done;
            assert(after[j].id == node && after[j].done);
        }
    }
}

/// Once every successor of the expanded entry has an entry, the step is
/// complete.
pub proof fn lemma_search_closes(
    topo: Topology,
    destination: NodeIdView,
    entries: Seq<EntryView>,
    b: int,
)
    requires
        search_inv(topo, destination, entries, b),
        0 <= b < entries.len(),
        closed_at(topo, entries, b),
    ensures
        search_inv(topo, destination, entries, -1),
{
}

/// When every entry is done, every node within reach has an entry.
proof fn lemma_all_found(
    topo: Topology,
    destination: NodeIdView,
    entries: Seq<EntryView>,
    node: NodeIdView,
    hops: nat,
)
    requires
        search_inv(topo, destination, entries, -1),
        forall|i: int| 0 <= i < entries.len() ==> (#[trigger] entries[i]).done,
        topo.within(node, hops),
    ensures
        has_entry(entries, node),
    decreases hops,
{
    assert(entry_ok(topo, entries, 0));
    if node == topo.source {
        assert(entries[0].id == node);
    } else {
        let via = topo.lemma_within_enters(node, hops);
        lemma_all_found(topo, destination, entries, via, (hops - 1) as nat);
        let j = choose|j: int| 0 <= j < entries.len() && (#[trigger] entries[j]).id == via;
        assert(closed_at(topo, entries, j));
        assert(topo.edge(entries[j].id, node));
    }
}

/// When every entry is done, the destination is out of reach.
pub proof fn lemma_search_exhausted(
    topo: Topology,
    destination: NodeIdView,
    entries: Seq<EntryView>,
)
    requires
        search_inv(topo, destination, entries, -1),
        forall|i: int| 0 <= i < entries.len() ==> (#[trigger] entries[i]).done,
    ensures
        !topo.reachable(destination),
{
    if topo.reachable(destination) {
        let hops = choose|hops: nat| topo.within(destination, hops);
        lemma_all_found(topo, destination, entries, destination, hops);
        let j = choose|j: int| 0 <= j < entries.len() && (#[trigger] entries[j]).id == destination;
        assert(entries[j].done);
        assert(false);
    }
}

/// The nodes from the source, which is left out, to the node of entry
/// `i`, following parents.
pub open spec fn chain(entries: Seq<EntryView>, i: int) -> Seq<NodeIdView>
    decreases i,
{
    if 0 < i < entries.len() && 0 <= entries[i].parent < i {
        chain(entries, entries[i].parent).push(entries[i].id)
    } else {
        Seq::empty()
    }
}

/// The chain of an entry is the route to its node.
pub proof fn lemma_chain_is_route(
    topo: Topology,
    destination: NodeIdView,
    entries: Seq<EntryView>,
    expanding: int,
    i: int,
)
    requires
        search_inv(topo, destination, entries, expanding),
        0 <= i < entries.len(),
    ensures
        chain(entries, i).len() == entries[i].dist,
        topo.is_route(entries[i].id, chain(entries, i)),
    decreases i,
{
    assert(entry_ok(topo, entries, i));
    if i > 0 {
        let p = entries[i].parent;
        lemma_chain_is_route(topo, destination, entries, expanding, p);
        assert(entry_ok(topo, entries, p));
        let path = chain(entries, i);
        assert(path.drop_last() =~= chain(entries, p));
        if chain(entries, p).len() == 0 {
            topo.lemma_depth_zero(entries[p].id);
        } else {
            assert(path[path.len() - 2] == chain(entries, p).last());
        }
    }
}

/// Every entry stands for a node of the graph.
pub proof fn lemma_entry_is_node(
    topo: Topology,
    destination: NodeIdView,
    entries: Seq<EntryView>,
    expanding: int,
    i: int,
)
    requires
        search_inv(topo, destination, entries, expanding),
        0 <= i < entries.len(),
    ensures
        topo.nodes().contains(entries[i].id),
{
    assert(entry_ok(topo, entries, i));
    if i > 0 {
        topo.lemma_edge_target_is_node(entries[entries[i].parent].id, entries[i].id);
    }
}

/// An entry that exists keeps existing when another is added.
pub proof fn lemma_entries_grow(entries: Seq<EntryView>, added: EntryView, id: NodeIdView)
    ensures
        has_entry(entries, id) ==> has_entry(entries.push(added), id),
        has_done(entries, id) ==> has_done(entries.push(added), id),
{
    if has_entry(entries, id) {
        let j = choose|j: int| 0 <= j < entries.len() && (#[trigger] entries[j]).id == id;
        assert(entries.push(added)[j].id == id);
    }
    if has_done(entries, id) {
        let j = choose|j: int|
            0 <= j < entries.len() && (#[trigger] entries[j]).id == id && entries[j].done;
        assert(entries.push(added)[j].id == id && entries.push(added)[j].done);
    }
}

/// Whether the search takes entry `a` before entry `b`.
fn takes_before(a: &Entry, b: &Entry) -> (before: bool)
    ensures
        before == earlier(a@.dist, a@.id, b@.dist, b@.id),
{
    a.dist < b.dist || (a.dist == b.dist && sorts_before(b.id.as_str(), a.id.as_str()))
}

/// The slot of the entry that comes next, or `None` if every entry is
/// done.
pub fn pick_next(entries: &Vec<Entry>) -> (next: Option<usize>)
    ensures
        match next {
            Some(b) => is_next(entries_view(entries@), b as int),
            None => forall|i: int|
                0 <= i < entries.len() ==> (#[trigger] entries_view(entries@)[i]).done,
        },
{
    let ghost all = entries_view(entries@);
    let mut next: Option<usize> = None;
    let mut i: usize = 0;
    while i < entries.len()
        invariant
            i <= entries.len(),
            all == entries_view(entries@),
            match next {
                Some(b) => b < i && !all[b as int].done && forall|j: int|
                    0 <= j < i && !(#[trigger] all[j]).done ==> !earlier(
                        all[j].dist,
                        all[j].id,
                        all[b as int].dist,
                        all[b as int].id,
                    ),
                None => forall|j: int| 0 <= j < i ==> (#[trigger] all[j]).done,
            },
        decreases entries.len() - i,
    {
        if !entries[i].done {
            match next {
                None => {
                    proof {
                        lemma_earlier_irreflexive(all[i as int].dist, all[i as int].id);
                    }
                    next = Some(i);
                },
                Some(b) => {
                    if takes_before(&entries[i], &entries[b]) {
                        proof {
                            lemma_earlier_irreflexive(all[i as int].dist, all[i as int].id);
                            assert forall|j: int|
                                0 <= j < i && !(#[trigger] all[j]).done implies !earlier(
                                all[j].dist,
                                all[j].id,
                                all[i as int].dist,
                                all[i as int].id,
                            ) by {
                                if earlier(
                                    all[j].dist,
                                    all[j].id,
                                    all[i as int].dist,
                                    all[i as int].id,
                                ) {
                                    lemma_earlier_transitive(
                                        all[j].dist,
                                        all[j].id,
                                        all[i as int].dist,
                                        all[i as int].id,
                                        all[b as int].dist,
                                        all[b as int].id,
                                    );
                                }
                            }
                        }
                        next = Some(i);
                    }
                },
            }
        }
        i += 1;
    }
    next
}

/// The slot of the entry of node `id`, if it has one.
pub fn find_entry(entries: &Vec<Entry>, id: &str) -> (slot: Option<usize>)
    ensures
        match slot {
            Some(i) => i < entries.len() && entries_view(entries@)[i as int].id == id@,
            None => !has_entry(entries_view(entries@), id@),
        },
{
    let ghost all = entries_view(entries@);
    let mut i: usize = 0;
    while i < entries.len()
        invariant
            i <= entries.len(),
            all == entries_view(entries@),
            forall|j: int| 0 <= j < i ==> (#[trigger] all[j]).id != id@,
        decreases entries.len() - i,
    {
        if same_text(entries[i].id.as_str(), id) {
            return Some(i);
        }
        i += 1;
    }
    None
}

/// The identifiers on the way from the source, which is left out, to the
/// node of entry `i`.
pub fn path_to(entries: &Vec<Entry>, i: usize) -> (path: Vec<String>)
    requires
        i < entries.len(),
    ensures
        texts_view(path@) == chain(entries_view(entries@), i as int),
    decreases i,
{
    if 0 < i && entries[i].parent < i {
        let mut path = path_to(entries, entries[i].parent);
        let ghost front = path@;
        path.push(entries[i].id.clone());
        assert(texts_view(path@) =~= texts_view(front).push(entries@[i as int].id@));
        path
    } else {
        let path: Vec<String> = Vec::new();
        assert(texts_view(path@) =~= Seq::empty());
        path
    }
}

} // verus!
