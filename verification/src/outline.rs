//! Document outline (table of contents): flat node storage, flattening of a
//! bookmark tree, and the outline sidebar's navigation state.

use vstd::prelude::*;

use crate::types::PageIndex;
use std::sync::Arc;

verus! {

/// Stable identifier for an outline node within an [`Outline`].
#[derive(Debug, Clone, Copy, PartialEq, Eq, Hash, Structural)]
pub struct OutlineNodeId(pub u32);

/// A bookmark destination inside a document; `P` is the type of the optional
/// position on the target page.
#[derive(Debug, Clone, PartialEq)]
pub struct Destination<P> {
    /// Target page.
    pub page: PageIndex,
    /// Optional target position / fit mode on that page.
    pub position: Option<P>,
}

/// A single outline entry.
#[derive(Debug, Clone, PartialEq)]
pub struct OutlineNode<P> {
    /// Stable node identifier.
    pub id: OutlineNodeId,
    /// User-visible bookmark title.
    pub title: String,
    /// Target destination, if this bookmark points at a page location.
    pub destination: Option<Destination<P>>,
    /// Parent node, or `None` for top-level roots.
    pub parent: Option<OutlineNodeId>,
    /// Child node identifiers in reading order.
    pub children: Vec<OutlineNodeId>,
}

/// A document outline (table of contents) with flat node storage.
///
/// Nodes are stored in a flat `Vec`; parent/child relationships use IDs.
/// `roots` contains the top-level entry IDs in reading order.
#[derive(Debug, Clone, PartialEq)]
pub struct Outline<P> {
    /// Flat node storage.
    pub nodes: Vec<OutlineNode<P>>,
    /// Top-level node IDs in reading order.
    pub roots: Vec<OutlineNodeId>,
}

/// A bookmark as a tree: title, destination and child bookmarks in reading
/// order.
#[derive(Debug)]
pub struct Bookmark<P> {
    /// User-visible bookmark title.
    pub title: String,
    /// Target destination, if any.
    pub destination: Option<Destination<P>>,
    /// Child bookmarks in reading order.
    pub children: Vec<Bookmark<P>>,
}

/// The first node, from position `i` on, with identifier `id`.
pub open spec fn node_position_from<P>(nodes: Seq<OutlineNode<P>>, id: OutlineNodeId, i: int) -> int
    decreases nodes.len() - i,
{
    if i < 0 || i >= nodes.len() {
        -1
    } else if nodes[i].id == id {
        i
    } else {
        node_position_from(nodes, id, i + 1)
    }
}

/// What a node holds, with its children as a sequence.
pub struct NodeView<P> {
    /// Node identifier.
    pub id: OutlineNodeId,
    /// Bookmark title.
    pub title: String,
    /// Target destination.
    pub destination: Option<Destination<P>>,
    /// Parent node.
    pub parent: Option<OutlineNodeId>,
    /// Child node identifiers in reading order.
    pub children: Seq<OutlineNodeId>,
}

impl<P> OutlineNode<P> {
    /// What this node holds.
    pub open spec fn node_view(&self) -> NodeView<P> {
        NodeView {
            id: self.id,
            title: self.title,
            destination: self.destination,
            parent: self.parent,
            children: self.children@,
        }
    }
}

/// What the nodes hold, in order.
pub open spec fn node_views<P>(nodes: Seq<OutlineNode<P>>) -> Seq<NodeView<P>> {
    nodes.map_values(|n: OutlineNode<P>| n.node_view())
}

/// Number of bookmarks in a tree.
pub open spec fn tree_size<P>(b: Bookmark<P>) -> nat
    decreases b, 0int,
{
    1 + forest_size_from(b.children@, 0)
}

/// Number of bookmarks in the trees `s[i..]`.
pub open spec fn forest_size_from<P>(s: Seq<Bookmark<P>>, i: int) -> nat
    decreases s, s.len() - i,
{
    if i < 0 || i >= s.len() {
        0
    } else {
        tree_size(s[i]) + forest_size_from(s, i + 1)
    }
}

/// The identifiers the trees `s[i..]` get when numbering starts at `next`:
/// each tree's root gets the next free number before its descendants.
pub open spec fn forest_ids_from<P>(s: Seq<Bookmark<P>>, i: int, next: int) -> Seq<OutlineNodeId>
    decreases s.len() - i,
{
    if i < 0 || i >= s.len() {
        Seq::empty()
    } else {
        seq![OutlineNodeId(next as u32)] + forest_ids_from(s, i + 1, next + tree_size(s[i]))
    }
}

/// The nodes of a tree in pre-order, numbered from `next`, under `parent`.
pub open spec fn tree_nodes<P>(b: Bookmark<P>, parent: Option<OutlineNodeId>, next: int) -> Seq<
    NodeView<P>,
>
    decreases b, 0int,
{
    seq![
        NodeView {
            id: OutlineNodeId(next as u32),
            title: b.title,
            destination: b.destination,
            parent,
            children: forest_ids_from(b.children@, 0, next + 1),
        },
    ] + forest_nodes_from(b.children@, 0, Some(OutlineNodeId(next as u32)), next + 1)
}

/// The nodes of the trees `s[i..]` in pre-order, numbered from `next`.
pub open spec fn forest_nodes_from<P>(
    s: Seq<Bookmark<P>>,
    i: int,
    parent: Option<OutlineNodeId>,
    next: int,
) -> Seq<NodeView<P>>
    decreases s, s.len() - i,
{
    if i < 0 || i >= s.len() {
        Seq::empty()
    } else {
        tree_nodes(s[i], parent, next) + forest_nodes_from(s, i + 1, parent, next + tree_size(s[i]))
    }
}

fn push_bookmark<P>(
    b: Bookmark<P>,
    parent: Option<OutlineNodeId>,
    nodes: &mut Vec<OutlineNode<P>>,
    next_id: &mut u32,
) -> (id: OutlineNodeId)
    requires
        *old(next_id) + tree_size(b) <= u32::MAX,
    ensures
        id == OutlineNodeId(*old(next_id)),
        *final(next_id) == *old(next_id) + tree_size(b),
        node_views(final(nodes)@) == node_views(old(nodes)@) + tree_nodes(b, parent, *old(next_id) as int),
    decreases b, 0int,
{
    let ghost b0 = b;
    let ghost n0 = *next_id as int;
    let id = OutlineNodeId(*next_id);
    *next_id = *next_id + 1;
    let Bookmark { title, destination, children } = b;
    let node_index = nodes.len();
    let ghost before = nodes@;
    assert(decreases_to!(b0 => b0.children@));
    let child_ids = push_forest(children, Some(id), nodes, next_id);
    let ghost mid = nodes@;
    assert(node_views(mid).len() == mid.len());
    assert(node_views(before).len() == before.len());
    nodes.insert(node_index, OutlineNode { id, title, destination, parent, children: child_ids });
    proof {
        assert(node_views(mid).len() == mid.len());
        assert(node_views(before).len() == before.len());
        assert(mid.len() >= node_index);
        assert(node_views(nodes@) =~= node_views(before) + tree_nodes(b0, parent, n0)) by {
            assert(node_views(mid) == node_views(before) + forest_nodes_from(
                b0.children@,
                0,
                Some(id),
                n0 + 1,
            ));
            assert(nodes@ =~= mid.insert(node_index as int, nodes@[node_index as int]));
            assert forall|k: int| 0 <= k < nodes@.len() implies #[trigger] node_views(nodes@)[k]
                == (node_views(before) + tree_nodes(b0, parent, n0))[k] by {
                if k < node_index {
                    assert(nodes@[k] == mid[k]);
                    assert(node_views(mid)[k] == node_views(before)[k]);
                } else if k == node_index {
                } else {
                    assert(nodes@[k] == mid[k - 1]);
                    assert(node_views(mid)[k - 1] == forest_nodes_from(
                        b0.children@,
                        0,
                        Some(id),
                        n0 + 1,
                    )[k - 1 - before.len()]);
                }
            }
        }
    }
    id
}

fn push_forest<P>(
    forest: Vec<Bookmark<P>>,
    parent: Option<OutlineNodeId>,
    nodes: &mut Vec<OutlineNode<P>>,
    next_id: &mut u32,
) -> (ids: Vec<OutlineNodeId>)
    requires
        *old(next_id) + forest_size_from(forest@, 0) <= u32::MAX,
    ensures
        ids@ == forest_ids_from(forest@, 0, *old(next_id) as int),
        *final(next_id) == *old(next_id) + forest_size_from(forest@, 0),
        node_views(final(nodes)@) == node_views(old(nodes)@) + forest_nodes_from(
            forest@,
            0,
            parent,
            *old(next_id) as int,
        ),
    decreases forest@, forest@.len() as int,
{
    let ghost fs = forest@;
    let ghost n0 = *next_id as int;
    let ghost start = nodes@;
    let mut rest = forest;
    let mut ids: Vec<OutlineNodeId> = Vec::new();
    let ghost mut k: int = 0;
    assert(fs.skip(0) =~= fs);
    while rest.len() > 0
        invariant
            fs == forest@,
            0 <= k <= fs.len(),
            rest@ == fs.skip(k),
            ids@ + forest_ids_from(fs, k, *next_id as int) == forest_ids_from(fs, 0, n0),
            node_views(nodes@) + forest_nodes_from(fs, k, parent, *next_id as int) == node_views(start)
                + forest_nodes_from(fs, 0, parent, n0),
            *next_id + forest_size_from(fs, k) == n0 + forest_size_from(fs, 0),
            n0 + forest_size_from(fs, 0) <= u32::MAX,
        decreases rest.len(),
    {
        let child = rest.remove(0);
        let ghost cur = *next_id as int;
        let ghost before = nodes@;
        proof {
            assert(child == fs[k]);
            assert(fs.skip(k + 1) =~= fs.skip(k).drop_first());
            assert(decreases_to!(fs, fs.len() as int => child, 0int));
        }
        let id = push_bookmark(child, parent, nodes, next_id);
        ids.push(id);
        proof {
            assert(ids@ + forest_ids_from(fs, k + 1, *next_id as int) =~= ids@.drop_last() + (
            seq![id] + forest_ids_from(fs, k + 1, *next_id as int)));
            assert(node_views(nodes@) =~= node_views(before) + tree_nodes(fs[k], parent, cur));
            assert(node_views(nodes@) + forest_nodes_from(fs, k + 1, parent, *next_id as int)
                =~= node_views(before) + (tree_nodes(fs[k], parent, cur) + forest_nodes_from(
                fs,
                k + 1,
                parent,
                *next_id as int,
            )));
            k = k + 1;
        }
    }
    proof {
        assert(forest_ids_from(fs, k, *next_id as int) =~= Seq::<OutlineNodeId>::empty());
        assert(forest_nodes_from(fs, k, parent, *next_id as int) =~= Seq::<NodeView<P>>::empty());
        assert(ids@ + Seq::<OutlineNodeId>::empty() =~= ids@);
        assert(node_views(nodes@) + Seq::<NodeView<P>>::empty() =~= node_views(nodes@));
    }
    ids
}

/// Pre-order numbering is consecutive: the `k`-th node of a tree numbered
/// from `next` has identifier `next + k`, and a tree has as many nodes as its
/// size.
pub proof fn lemma_tree_numbering<P>(b: Bookmark<P>, parent: Option<OutlineNodeId>, next: int)
    ensures
        tree_nodes(b, parent, next).len() == tree_size(b),
        forall|k: int|
            0 <= k < tree_size(b) ==> (#[trigger] tree_nodes(b, parent, next)[k]).id == OutlineNodeId(
                (next + k) as u32,
            ),
    decreases b, 0int,
{
    assert(decreases_to!(b, 0int => b.children@, b.children@.len() - 0));
    lemma_forest_numbering(b.children@, 0, Some(OutlineNodeId(next as u32)), next + 1);
    let t = tree_nodes(b, parent, next);
    let f = forest_nodes_from(b.children@, 0, Some(OutlineNodeId(next as u32)), next + 1);
    assert forall|k: int| 0 <= k < tree_size(b) implies (#[trigger] t[k]).id == OutlineNodeId(
        (next + k) as u32,
    ) by {
        if k > 0 {
            assert(t[k] == f[k - 1]);
        }
    }
}

/// Pre-order numbering of the trees `s[i..]` is consecutive from `next`.
pub proof fn lemma_forest_numbering<P>(s: Seq<Bookmark<P>>, i: int, parent: Option<OutlineNodeId>, next: int)
    ensures
        forest_nodes_from(s, i, parent, next).len() == forest_size_from(s, i),
        forall|k: int|
            0 <= k < forest_size_from(s, i) ==> (#[trigger] forest_nodes_from(s, i, parent, next)[k]).id
                == OutlineNodeId((next + k) as u32),
    decreases s, s.len() - i,
{
    if 0 <= i < s.len() {
        lemma_tree_numbering(s[i], parent, next);
        lemma_forest_numbering(s, i + 1, parent, next + tree_size(s[i]));
        let f = forest_nodes_from(s, i, parent, next);
        let t = tree_nodes(s[i], parent, next);
        let g = forest_nodes_from(s, i + 1, parent, next + tree_size(s[i]));
        assert forall|k: int| 0 <= k < forest_size_from(s, i) implies (#[trigger] f[k]).id
            == OutlineNodeId((next + k) as u32) by {
            if k >= tree_size(s[i]) {
                assert(f[k] == g[k - tree_size(s[i])]);
            } else {
                assert(f[k] == t[k]);
            }
        }
    }
}


/// Every child listed by a node of `v` is a node of `v` (its identifier,
/// less `base`, is its position) whose parent is that node.
pub open spec fn links_consistent<P>(v: Seq<NodeView<P>>, base: int) -> bool {
    forall|i: int, j: int|
        0 <= i < v.len() && 0 <= j < v[i].children.len() ==> {
            let c = (#[trigger] v[i].children[j]).0 as int - base;
            &&& 0 <= c < v.len()
            &&& v[c].parent == Some(v[i].id)
        }
}

proof fn lemma_forest_roots<P>(s: Seq<Bookmark<P>>, i: int, parent: Option<OutlineNodeId>, next: int)
    requires
        0 <= i <= s.len(),
        0 <= next,
        next + forest_size_from(s, i) <= u32::MAX + 1,
    ensures
        forest_ids_from(s, i, next).len() == s.len() - i,
        forall|j: int|
            0 <= j < s.len() - i ==> {
                let off = (#[trigger] forest_ids_from(s, i, next)[j]).0 as int - next;
                &&& 0 <= off < forest_size_from(s, i)
                &&& forest_nodes_from(s, i, parent, next)[off].parent == parent
            },
    decreases s.len() - i,
{
    if i < s.len() {
        let sz = tree_size(s[i]);
        lemma_forest_roots(s, i + 1, parent, next + sz);
        lemma_tree_numbering(s[i], parent, next);
        lemma_forest_numbering(s, i + 1, parent, next + sz);
        let ids = forest_ids_from(s, i, next);
        let f = forest_nodes_from(s, i, parent, next);
        let g = forest_nodes_from(s, i + 1, parent, next + sz);
        let t = tree_nodes(s[i], parent, next);
        assert forall|j: int| 0 <= j < s.len() - i implies {
            let off = (#[trigger] ids[j]).0 as int - next;
            &&& 0 <= off < forest_size_from(s, i)
            &&& f[off].parent == parent
        } by {
            if j == 0 {
                assert(ids[0] == OutlineNodeId(next as u32));
                assert(f[0] == t[0]);
            } else {
                assert(ids[j] == forest_ids_from(s, i + 1, next + sz)[j - 1]);
                let off1 = forest_ids_from(s, i + 1, next + sz)[j - 1].0 as int - (next + sz);
                assert(f[off1 + sz] == g[off1]);
            }
        }
    }
}

proof fn lemma_links_concat<P>(a: Seq<NodeView<P>>, b: Seq<NodeView<P>>, base: int)
    requires
        links_consistent(a, base),
        links_consistent(b, base + a.len()),
    ensures
        links_consistent(a + b, base),
{
    let v = a + b;
    assert forall|i: int, j: int| 0 <= i < v.len() && 0 <= j < v[i].children.len() implies {
        let c = (#[trigger] v[i].children[j]).0 as int - base;
        &&& 0 <= c < v.len()
        &&& v[c].parent == Some(v[i].id)
    } by {
        if i < a.len() {
            assert(v[i] == a[i]);
            let c = a[i].children[j].0 as int - base;
            assert(v[c] == a[c]);
        } else {
            assert(v[i] == b[i - a.len()]);
            let c = b[i - a.len()].children[j].0 as int - (base + a.len());
            assert(v[c + a.len()] == b[c]);
        }
    }
}

/// Within a tree numbered from `next`, every listed child is a node of the
/// tree whose parent is the listing node.
pub proof fn lemma_tree_links<P>(b: Bookmark<P>, parent: Option<OutlineNodeId>, next: int)
    requires
        0 <= next,
        next + tree_size(b) <= u32::MAX + 1,
    ensures
        links_consistent(tree_nodes(b, parent, next), next),
    decreases b, 0int,
{
    assert(decreases_to!(b, 0int => b.children@, b.children@.len() - 0));
    let me = Some(OutlineNodeId(next as u32));
    let cs = b.children@;
    lemma_forest_links(cs, 0, me, next + 1);
    lemma_forest_roots(cs, 0, me, next + 1);
    lemma_forest_numbering(cs, 0, me, next + 1);
    let head = tree_nodes(b, parent, next).take(1);
    let f = forest_nodes_from(cs, 0, me, next + 1);
    let t = tree_nodes(b, parent, next);
    assert(t =~= seq![t[0]] + f);
    assert forall|i: int, j: int| 0 <= i < t.len() && 0 <= j < t[i].children.len() implies {
        let c = (#[trigger] t[i].children[j]).0 as int - next;
        &&& 0 <= c < t.len()
        &&& t[c].parent == Some(t[i].id)
    } by {
        if i == 0 {
            let off = forest_ids_from(cs, 0, next + 1)[j].0 as int - (next + 1);
            assert(t[off + 1] == f[off]);
        } else {
            assert(t[i] == f[i - 1]);
            let c = f[i - 1].children[j].0 as int - (next + 1);
            assert(t[c + 1] == f[c]);
        }
    }
}

/// Within the trees `s[i..]` numbered from `next`, every listed child is a
/// node of the trees whose parent is the listing node.
pub proof fn lemma_forest_links<P>(s: Seq<Bookmark<P>>, i: int, parent: Option<OutlineNodeId>, next: int)
    requires
        0 <= next,
        next + forest_size_from(s, i) <= u32::MAX + 1,
    ensures
        links_consistent(forest_nodes_from(s, i, parent, next), next),
    decreases s, s.len() - i,
{
    if 0 <= i < s.len() {
        let sz = tree_size(s[i]);
        lemma_tree_links(s[i], parent, next);
        lemma_forest_links(s, i + 1, parent, next + sz);
        lemma_tree_numbering(s[i], parent, next);
        lemma_links_concat(
            tree_nodes(s[i], parent, next),
            forest_nodes_from(s, i + 1, parent, next + sz),
            next,
        );
    } else {
        assert(forest_nodes_from(s, i, parent, next) =~= Seq::<NodeView<P>>::empty());
    }
}

impl<P> Outline<P> {
    /// An outline without entries.
    pub fn new() -> (outline: Outline<P>)
        ensures
            outline.nodes@.len() == 0,
            outline.roots@.len() == 0,
    {
        Outline { nodes: Vec::new(), roots: Vec::new() }
    }

    /// Returns true if this outline has no entries.
    pub fn is_empty(&self) -> (empty: bool)
        ensures
            empty == (self.roots@.len() == 0),
    {
        self.roots.len() == 0
    }

    /// Look up a node by its ID: the first node with that identifier.
    pub fn node(&self, id: OutlineNodeId) -> (node: Option<&OutlineNode<P>>)
        ensures
            node.is_some() == (node_position_from(self.nodes@, id, 0) >= 0),
            node.is_some() ==> *node.unwrap() == self.nodes@[node_position_from(self.nodes@, id, 0)],
    {
        let mut i: usize = 0;
        while i < self.nodes.len()
            invariant
                i <= self.nodes@.len(),
                node_position_from(self.nodes@, id, 0) == node_position_from(self.nodes@, id, i as int),
            decreases self.nodes.len() - i,
        {
            if self.nodes[i].id.0 == id.0 {
                return Some(&self.nodes[i]);
            }
            i += 1;
        }
        None
    }

    /// Flatten a bookmark forest into an outline: nodes in pre-order, each
    /// tree's root numbered before its descendants from zero on, with parent
    /// links and child lists by identifier; the roots are the forest's trees.
    pub fn from_bookmarks(bookmarks: Vec<Bookmark<P>>) -> (outline: Outline<P>)
        requires
            forest_size_from(bookmarks@, 0) <= u32::MAX,
        ensures
            node_views(outline.nodes@) == forest_nodes_from(bookmarks@, 0, None, 0),
            outline.roots@ == forest_ids_from(bookmarks@, 0, 0),
            outline.nodes@.len() == forest_size_from(bookmarks@, 0),
            forall|k: int|
                0 <= k < outline.nodes@.len() ==> (#[trigger] outline.nodes@[k]).id == OutlineNodeId(
                    k as u32,
                ),
            links_consistent(node_views(outline.nodes@), 0),
    {
        let ghost fs = bookmarks@;
        let mut nodes: Vec<OutlineNode<P>> = Vec::new();
        let mut next_id: u32 = 0;
        assert(node_views(nodes@) =~= Seq::<NodeView<P>>::empty());
        let roots = push_forest(bookmarks, None, &mut nodes, &mut next_id);
        proof {
            lemma_forest_numbering(fs, 0, None, 0);
            lemma_forest_links(fs, 0, None, 0);
            assert(node_views(nodes@) =~= forest_nodes_from(fs, 0, None, 0));
            assert(node_views(nodes@).len() == nodes@.len());
            assert forall|k: int| 0 <= k < nodes@.len() implies (#[trigger] nodes@[k]).id
                == OutlineNodeId(k as u32) by {
                assert(node_views(nodes@)[k].id == nodes@[k].id);
            }
        }
        Outline { nodes, roots }
    }
}

impl<P> Default for Outline<P> {
    fn default() -> (outline: Outline<P>)
        ensures
            outline.nodes@.len() == 0,
            outline.roots@.len() == 0,
    {
        Outline::new()
    }
}

/// In an outline whose nodes are numbered consecutively from zero (as
/// [`Outline::from_bookmarks`] numbers them), looking a node up by the
/// identifier `k` finds the `k`-th node.
pub proof fn lemma_numbered_lookup<P>(nodes: Seq<OutlineNode<P>>, k: int)
    requires
        forall|j: int| 0 <= j < nodes.len() ==> (#[trigger] nodes[j]).id == OutlineNodeId(j as u32),
        0 <= k < nodes.len(),
        nodes.len() <= u32::MAX + 1,
    ensures
        node_position_from(nodes, OutlineNodeId(k as u32), 0) == k,
{
    lemma_numbered_lookup_from(nodes, k, 0);
}

proof fn lemma_numbered_lookup_from<P>(nodes: Seq<OutlineNode<P>>, k: int, i: int)
    requires
        forall|j: int| 0 <= j < nodes.len() ==> (#[trigger] nodes[j]).id == OutlineNodeId(j as u32),
        0 <= i <= k < nodes.len(),
        nodes.len() <= u32::MAX + 1,
    ensures
        node_position_from(nodes, OutlineNodeId(k as u32), i) == k,
    decreases k - i,
{
    if i < k {
        assert(nodes[i].id == OutlineNodeId(i as u32));
        lemma_numbered_lookup_from(nodes, k, i + 1);
    } else {
        assert(nodes[i].id == OutlineNodeId(k as u32));
    }
}

/// The abstract state of an [`OutlinePlugin`].
pub struct OutlinePluginView<P> {
    /// Whether the outline panel is shown.
    pub visible: bool,
    /// Identifiers of the expanded nodes.
    pub expanded: Set<OutlineNodeId>,
    /// The first visible page, as last seen.
    pub last_target_page: Option<PageIndex>,
    /// The outline of the current document, once known.
    pub outline: Option<Outline<P>>,
    /// A destination to scroll to on the next frame.
    pub pending_destination: Option<Destination<P>>,
}

/// Plugin state of the document outline sidebar.
pub struct OutlinePlugin<P> {
    visible: bool,
    expanded_nodes: Vec<OutlineNodeId>,
    last_target_page: Option<PageIndex>,
    outline_cache: Option<Arc<Outline<P>>>,
    pending_destination: Option<Destination<P>>,
}

impl<P> View for OutlinePlugin<P> {
    type V = OutlinePluginView<P>;

    closed spec fn view(&self) -> OutlinePluginView<P> {
        OutlinePluginView {
            visible: self.visible,
            expanded: self.expanded_nodes@.to_set(),
            last_target_page: self.last_target_page,
            outline: match self.outline_cache {
                Some(o) => Some(*o),
                None => None,
            },
            pending_destination: self.pending_destination,
        }
    }
}

impl<P> OutlinePlugin<P> {
    /// The plugin's invariant: no node is recorded as expanded twice.
    pub closed spec fn wf(&self) -> bool {
        self.expanded_nodes@.no_duplicates()
    }

    /// Create a new outline plugin: shown, nothing expanded, no outline yet.
    pub fn new() -> (plugin: OutlinePlugin<P>)
        ensures
            plugin.wf(),
            plugin@.visible,
            plugin@.expanded == Set::<OutlineNodeId>::empty(),
            plugin@.last_target_page.is_none(),
            plugin@.outline.is_none(),
            plugin@.pending_destination.is_none(),
    {
        let plugin = OutlinePlugin {
            visible: true,
            expanded_nodes: Vec::new(),
            last_target_page: None,
            outline_cache: None,
            pending_destination: None,
        };
        assert(plugin.expanded_nodes@.to_set() =~= Set::<OutlineNodeId>::empty());
        plugin
    }

    /// A stable identifier for this plugin.
    pub fn id(&self) -> (id: &'static str)
        ensures
            id@ == "viewkai.outline"@,
    {
        "viewkai.outline"
    }

    /// Queue a destination jump to be applied during the next frame update.
    pub fn set_pending_destination(&mut self, dest: Destination<P>)
        ensures
            final(self)@ == (OutlinePluginView { pending_destination: Some(dest), ..old(self)@ }),
            final(self).wf() == old(self).wf(),
    {
        self.pending_destination = Some(dest);
    }

    /// Return whether the outline panel is visible.
    pub fn visible(&self) -> (visible: bool)
        ensures
            visible == self@.visible,
    {
        self.visible
    }

    /// Show or hide the outline panel.
    pub fn set_visible(&mut self, visible: bool)
        ensures
            final(self)@ == (OutlinePluginView { visible, ..old(self)@ }),
            final(self).wf() == old(self).wf(),
    {
        self.visible = visible;
    }

    /// Return the currently queued destination, if any.
    pub fn pending_destination(&self) -> (dest: Option<&Destination<P>>)
        ensures
            dest.is_some() == self@.pending_destination.is_some(),
            dest.is_some() ==> *dest.unwrap() == self@.pending_destination.unwrap(),
    {
        self.pending_destination.as_ref()
    }

    /// Keep the outline of the current document.
    pub fn set_outline(&mut self, outline: Arc<Outline<P>>)
        ensures
            final(self)@ == (OutlinePluginView { outline: Some(*outline), ..old(self)@ }),
            final(self).wf() == old(self).wf(),
    {
        self.outline_cache = Some(outline);
    }

    /// The outline of the current document, once known.
    pub fn outline(&self) -> (outline: Option<&Arc<Outline<P>>>)
        ensures
            outline.is_some() == self@.outline.is_some(),
            outline.is_some() ==> **outline.unwrap() == self@.outline.unwrap(),
    {
        self.outline_cache.as_ref()
    }

    /// Whether the node with this identifier is expanded.
    pub fn is_expanded(&self, node: OutlineNodeId) -> (expanded: bool)
        ensures
            expanded == self@.expanded.contains(node),
    {
        let mut i: usize = 0;
        while i < self.expanded_nodes.len()
            invariant
                i <= self.expanded_nodes@.len(),
                forall|j: int| 0 <= j < i ==> self.expanded_nodes@[j] != node,
            decreases self.expanded_nodes.len() - i,
        {
            if self.expanded_nodes[i].0 == node.0 {
                assert(self.expanded_nodes@.to_set().contains(self.expanded_nodes@[i as int]));
                return true;
            }
            i += 1;
        }
        false
    }

    /// Whether a destination points at the page last seen as the first
    /// visible one (the "current" entry of the outline).
    pub fn is_current(&self, dest: &Option<Destination<P>>) -> (current: bool)
        ensures
            current == (dest.is_some() && self@.last_target_page == Some(dest.unwrap().page)),
    {
        match (dest, self.last_target_page) {
            (Some(d), Some(page)) => d.page.0 == page.0,
            _ => false,
        }
    }

    /// Handle a click on an outline entry: a clicked entry with children
    /// toggles between expanded and collapsed; either way, an entry with a
    /// destination queues a jump to it.
    pub fn on_node_clicked(&mut self, node: OutlineNodeId, has_children: bool, destination: Option<Destination<P>>)
        requires
            old(self).wf(),
        ensures
            final(self).wf(),
            final(self)@.expanded == if !has_children {
                old(self)@.expanded
            } else if old(self)@.expanded.contains(node) {
                old(self)@.expanded.remove(node)
            } else {
                old(self)@.expanded.insert(node)
            },
            final(self)@.pending_destination == if destination.is_some() {
                destination
            } else {
                old(self)@.pending_destination
            },
            final(self)@.visible == old(self)@.visible,
            final(self)@.last_target_page == old(self)@.last_target_page,
            final(self)@.outline == old(self)@.outline,
    {
        if has_children {
            let mut i: usize = 0;
            let mut found: Option<usize> = None;
            while i < self.expanded_nodes.len()
                invariant_except_break
                    found.is_none(),
                invariant
                    i <= self.expanded_nodes@.len(),
                    forall|j: int| 0 <= j < i ==> self.expanded_nodes@[j] != node,
                ensures
                    found matches Some(k) ==> k < self.expanded_nodes@.len()
                        && self.expanded_nodes@[k as int] == node,
                    found.is_none() ==> forall|j: int|
                        0 <= j < self.expanded_nodes@.len() ==> self.expanded_nodes@[j] != node,
                decreases self.expanded_nodes.len() - i,
            {
                if self.expanded_nodes[i].0 == node.0 {
                    found = Some(i);
                    break;
                }
                i += 1;
            }
            let ghost before = self.expanded_nodes@;
            match found {
                Some(k) => {
                    assert(before[k as int] == node);
                    self.expanded_nodes.remove(k);
                    proof {
                        assert(self.expanded_nodes@.to_set() =~= before.to_set().remove(node)) by {
                            assert forall|x: OutlineNodeId| #[trigger] self.expanded_nodes@.to_set().contains(x)
                                == before.to_set().remove(node).contains(x) by {
                                if self.expanded_nodes@.contains(x) {
                                    let a = choose|a: int| 0 <= a < self.expanded_nodes@.len()
                                        && self.expanded_nodes@[a] == x;
                                    let a0 = if a < k { a } else { a + 1 };
                                    assert(before[a0] == x);
                                    assert(a0 != k);
                                }
                                if before.contains(x) && x != node {
                                    let a = choose|a: int| 0 <= a < before.len() && before[a] == x;
                                    if a < k {
                                        assert(self.expanded_nodes@[a] == x);
                                    } else {
                                        assert(a != k);
                                        assert(self.expanded_nodes@[a - 1] == x);
                                    }
                                }
                            }
                        }
                        assert(before.to_set().contains(node));
                        assert forall|a: int, b: int| 0 <= a < b < self.expanded_nodes@.len() implies
                            self.expanded_nodes@[a] != self.expanded_nodes@[b] by {
                            let a0 = if a < k { a } else { a + 1 };
                            let b0 = if b < k { b } else { b + 1 };
                            assert(before[a0] != before[b0]);
                        }
                    }
                },
                None => {
                    self.expanded_nodes.push(node);
                    proof {
                        assert(!before.contains(node));
                        assert(self.expanded_nodes@.to_set() =~= before.to_set().insert(node)) by {
                            assert forall|x: OutlineNodeId| #[trigger] self.expanded_nodes@.to_set().contains(x)
                                == before.to_set().insert(node).contains(x) by {
                                if self.expanded_nodes@.contains(x) {
                                    let a = choose|a: int| 0 <= a < self.expanded_nodes@.len()
                                        && self.expanded_nodes@[a] == x;
                                    if a < before.len() {
                                        assert(before[a] == x);
                                    }
                                }
                                if before.contains(x) {
                                    let a = choose|a: int| 0 <= a < before.len() && before[a] == x;
                                    assert(self.expanded_nodes@[a] == x);
                                }
                                if x == node {
                                    assert(self.expanded_nodes@[before.len() as int] == x);
                                }
                            }
                        }
                        assert(!before.to_set().contains(node));
                        assert forall|a: int, b: int| 0 <= a < b < self.expanded_nodes@.len() implies
                            self.expanded_nodes@[a] != self.expanded_nodes@[b] by {
                            if b == before.len() {
                                assert(before.contains(before[a]));
                            }
                        }
                    }
                },
            }
        }
        if destination.is_some() {
            self.pending_destination = destination;
        }
    }

    /// The per-frame update: the first visible page (if any page is visible)
    /// becomes the current target page, and a queued destination is taken
    /// to be scrolled to.
    pub fn begin_frame(&mut self, visible_pages: &[PageIndex]) -> (jump: Option<Destination<P>>)
        ensures
            jump == old(self)@.pending_destination,
            final(self)@ == (OutlinePluginView {
                pending_destination: None,
                last_target_page: if visible_pages@.len() > 0 {
                    Some(visible_pages@[0])
                } else {
                    old(self)@.last_target_page
                },
                ..old(self)@
            }),
            final(self).wf() == old(self).wf(),
    {
        if visible_pages.len() > 0 {
            self.last_target_page = Some(visible_pages[0]);
        }
        self.pending_destination.take()
    }
}

} // verus!
