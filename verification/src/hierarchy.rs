//! The layout hierarchy: a tree of nodes, each optionally showing a cell
//! buffer, placed relative to its parent by an anchor point on the
//! parent, an offset in the parent's tiles and a pivot point on itself.
//! The layout pass turns the tree into a list of draw items ordered by
//! z-index.

use vstd::prelude::*;
use std::collections::HashMap;
use slotmap::{DefaultKey, SlotMap};
use crate::arena::{Arena, slot_key, is_slot_key, lemma_slot_key_idempotent};
use crate::keys::{BufferKey, NodeKey};

verus! {

broadcast use vstd::std_specs::hash::group_hash_axioms;

// ---------------------------------------------------------------------------
// Anchors and z policies
// ---------------------------------------------------------------------------

/// One of nine reference points of a rectangle.
#[derive(Debug, Clone, Copy, PartialEq, Eq, Structural)]
pub enum Anchor {
    TopLeft,
    TopCenter,
    TopRight,
    CenterLeft,
    Center,
    CenterRight,
    BottomLeft,
    BottomCenter,
    BottomRight,
}

impl Default for Anchor {
    fn default() -> (a: Anchor)
        ensures
            a == Anchor::TopLeft,
    {
        Anchor::TopLeft
    }
}

/// Half of `v`, rounded toward zero (integer division of `i32`).
pub open spec fn half(v: i32) -> i32 {
    if v >= 0 {
        (v / 2) as i32
    } else {
        (-((-(v as int)) / 2)) as i32
    }
}

/// Offset of an anchor point inside a `w` by `h` rectangle.
pub open spec fn anchor_offset(a: Anchor, w: i32, h: i32) -> (i32, i32) {
    match a {
        Anchor::TopLeft => (0, 0),
        Anchor::TopCenter => (half(w), 0),
        Anchor::TopRight => (w, 0),
        Anchor::CenterLeft => (0, half(h)),
        Anchor::Center => (half(w), half(h)),
        Anchor::CenterRight => (w, half(h)),
        Anchor::BottomLeft => (0, h),
        Anchor::BottomCenter => (half(w), h),
        Anchor::BottomRight => (w, h),
    }
}

fn half_exec(v: i32) -> (r: i32)
    ensures
        r == half(v),
{
    if v >= 0 {
        v / 2
    } else {
        let n: i64 = -(v as i64);
        let q: i64 = n / 2;
        -(q as i32)
    }
}

/// The column of a rectangle an anchor names: 0 left, 1 centre, 2 right.
pub open spec fn anchor_column(a: Anchor) -> int {
    if a == Anchor::TopLeft || a == Anchor::CenterLeft || a == Anchor::BottomLeft {
        0
    } else if a == Anchor::TopCenter || a == Anchor::Center || a == Anchor::BottomCenter {
        1
    } else {
        2
    }
}

/// The row of a rectangle an anchor names: 0 top, 1 centre, 2 bottom.
pub open spec fn anchor_row(a: Anchor) -> int {
    if a == Anchor::TopLeft || a == Anchor::TopCenter || a == Anchor::TopRight {
        0
    } else if a == Anchor::CenterLeft || a == Anchor::Center || a == Anchor::CenterRight {
        1
    } else {
        2
    }
}

/// `x` is half of `v` rounded toward zero: twice `x` falls short of `v`
/// by at most one, on the side of zero.
pub open spec fn is_half_toward_zero(v: int, x: int) -> bool {
    &&& v >= 0 ==> 0 <= v - 2 * x <= 1
    &&& v < 0 ==> 0 <= 2 * x - v <= 1
}

/// An anchor's offset inside a `w` by `h` rectangle is the point its name
/// says: x is 0 in the left column, `w` in the right one and half of `w`
/// (toward zero) in the centre one; y is 0 in the top row, `h` in the
/// bottom one and half of `h` in the centre one.
pub proof fn law_anchor_offset_names_its_point(a: Anchor, w: i32, h: i32)
    ensures
        anchor_column(a) == 0 ==> anchor_offset(a, w, h).0 == 0,
        anchor_column(a) == 1 ==> is_half_toward_zero(w as int, anchor_offset(a, w, h).0 as int),
        anchor_column(a) == 2 ==> anchor_offset(a, w, h).0 == w,
        anchor_row(a) == 0 ==> anchor_offset(a, w, h).1 == 0,
        anchor_row(a) == 1 ==> is_half_toward_zero(h as int, anchor_offset(a, w, h).1 as int),
        anchor_row(a) == 2 ==> anchor_offset(a, w, h).1 == h,
{
}

impl Anchor {
    /// The anchor point inside a `w` by `h` rectangle, halves rounded
    /// toward zero.
    pub fn offset(&self, w: i32, h: i32) -> (r: (i32, i32))
        ensures
            r == anchor_offset(*self, w, h),
    {
        match self {
            Anchor::TopLeft => (0, 0),
            Anchor::TopCenter => (half_exec(w), 0),
            Anchor::TopRight => (w, 0),
            Anchor::CenterLeft => (0, half_exec(h)),
            Anchor::Center => (half_exec(w), half_exec(h)),
            Anchor::CenterRight => (w, half_exec(h)),
            Anchor::BottomLeft => (0, h),
            Anchor::BottomCenter => (half_exec(w), h),
            Anchor::BottomRight => (w, h),
        }
    }
}

/// How a node's z-index follows from its parent's.
#[derive(Debug, Clone, Copy, PartialEq, Eq, Structural)]
pub enum ZPolicy {
    /// Parent z plus the given amount.
    Relative(i32),
    /// Exactly the given z.
    Absolute(i32),
    /// The parent's z.
    Inherit,
}

impl Default for ZPolicy {
    fn default() -> (p: ZPolicy)
        ensures
            p == ZPolicy::Relative(0),
    {
        ZPolicy::Relative(0)
    }
}

// ---------------------------------------------------------------------------
// Nodes and draw items
// ---------------------------------------------------------------------------

/// A node of the hierarchy.
#[derive(Debug, Clone)]
pub struct Node {
    pub buffer: Option<BufferKey>,
    pub parent: Option<NodeKey>,
    pub children: Vec<NodeKey>,
    /// Offset from the anchor point, in the parent's tiles.
    pub local_x: i32,
    pub local_y: i32,
    /// Reference point on the parent.
    pub anchor: Anchor,
    /// Reference point on the node itself.
    pub pivot: Anchor,
    pub z_policy: ZPolicy,
    pub visible: bool,
}

/// A fresh node showing `buffer`: no parent, no children, no offset,
/// both reference points top-left, z relative by 0, visible.
pub open spec fn fresh_node(buffer: Option<BufferKey>, n: Node) -> bool {
    &&& n.buffer == buffer
    &&& n.parent.is_none()
    &&& n.children@.len() == 0
    &&& n.local_x == 0
    &&& n.local_y == 0
    &&& n.anchor == Anchor::TopLeft
    &&& n.pivot == Anchor::TopLeft
    &&& n.z_policy == ZPolicy::Relative(0)
    &&& n.visible
}

impl Default for Node {
    fn default() -> (n: Node)
        ensures
            fresh_node(None, n),
    {
        Node {
            buffer: None,
            parent: None,
            children: Vec::new(),
            local_x: 0,
            local_y: 0,
            anchor: Anchor::TopLeft,
            pivot: Anchor::TopLeft,
            z_policy: ZPolicy::Relative(0),
            visible: true,
        }
    }
}

/// A buffer placed on screen: its top-left pixel and its z-index.
#[derive(Debug, Clone, Copy, PartialEq, Eq, Structural)]
pub struct RenderItem {
    pub buffer: BufferKey,
    pub screen_x: i32,
    pub screen_y: i32,
    pub z_index: i32,
}

// ---------------------------------------------------------------------------
// The node arena
// ---------------------------------------------------------------------------

/// The nodes that a node arena holds, by the 64-bit form of their keys.
pub uninterp spec fn node_slots(m: Arena<Node>) -> Map<u64, Node>;

/// How many slots a node arena has made, freed ones and the reserved
/// slot 0 included; it never shrinks, and `insert` panics once it
/// reaches `u32::MAX` with no freed slot to reuse.
pub uninterp spec fn node_slot_count(m: Arena<Node>) -> nat;

/// `SlotMap::with_key`: an empty arena with only the reserved slot.
#[verifier::external_body]
fn node_arena_new() -> (arena: Arena<Node>)
    ensures
        node_slots(arena).is_empty(),
        node_slot_count(arena) == 1,
{
    Arena { slots: SlotMap::with_key() }
}

/// `SlotMap::insert`: stores `node` under a key that was not live, whose
/// 64-bit form is returned; at most one slot is made.
#[verifier::external_body]
fn node_arena_insert(m: &mut Arena<Node>, node: Node) -> (k: NodeKey)
    requires
        node_slot_count(*old(m)) < u32::MAX,
    ensures
        !node_slots(*old(m)).contains_key(k.ffi),
        is_slot_key(k.ffi),
        node_slots(*final(m)) == node_slots(*old(m)).insert(k.ffi, node),
        node_slot_count(*old(m)) <= node_slot_count(*final(m)) <= node_slot_count(*old(m)) + 1,
{
    NodeKey { ffi: slotmap::Key::data(&m.slots.insert(node)).as_ffi() }
}

/// `SlotMap::get` with the key that `KeyData::from_ffi` makes of `k`.
#[verifier::external_body]
fn node_arena_get<'a>(m: &'a Arena<Node>, k: NodeKey) -> (r: Option<&'a Node>)
    ensures
        r == (if node_slots(*m).contains_key(slot_key(k.ffi)) {
            Some(&node_slots(*m)[slot_key(k.ffi)])
        } else {
            None
        }),
{
    m.slots.get(DefaultKey::from(slotmap::KeyData::from_ffi(k.ffi)))
}

/// `SlotMap::get_mut` with the key that `KeyData::from_ffi` makes of `k`:
/// the arena afterwards holds what was written through the reference.
#[verifier::external_body]
fn node_arena_get_mut<'a>(m: &'a mut Arena<Node>, k: NodeKey) -> (r: Option<&'a mut Node>)
    ensures
        node_slots(*old(m)).contains_key(slot_key(k.ffi)) ==> {
            &&& r.is_some()
            &&& *r.unwrap() == node_slots(*old(m))[slot_key(k.ffi)]
            &&& node_slots(*final(m)) == node_slots(*old(m)).insert(slot_key(k.ffi), *final(r.unwrap()))
            &&& node_slot_count(*final(m)) == node_slot_count(*old(m))
        },
        !node_slots(*old(m)).contains_key(slot_key(k.ffi)) ==> r.is_none() && *final(m) == *old(m),
{
    m.slots.get_mut(DefaultKey::from(slotmap::KeyData::from_ffi(k.ffi)))
}

} // verus!

verus! {

// ---------------------------------------------------------------------------
// The hierarchy
// ---------------------------------------------------------------------------

/// A tree of nodes kept in an arena.
pub struct Hierarchy {
    pub nodes: Arena<Node>,
    pub root: Option<NodeKey>,
    /// Creation rank of each node: a child was always made after its
    /// parent, which keeps the tree free of cycles.
    pub rank: Ghost<Map<u64, nat>>,
    /// The rank that the next node will get.
    pub next_rank: Ghost<nat>,
}

impl Hierarchy {
    /// The nodes of the tree, by the 64-bit form of their keys.
    pub open spec fn slots(&self) -> Map<u64, Node> {
        node_slots(self.nodes)
    }

    /// Every live node has a rank below `next_rank`, and every child of a
    /// live node is live and younger than it.
    pub open spec fn wf(&self) -> bool {
        &&& forall|k: u64| #[trigger]
            self.slots().contains_key(k) ==> {
                &&& is_slot_key(k)
                &&& self.rank@.contains_key(k)
                &&& self.rank@[k] < self.next_rank@
            }
        &&& forall|k: u64, i: int|
            self.slots().contains_key(k) && 0 <= i < self.slots()[k].children@.len() ==> {
                let c = slot_key(#[trigger] self.slots()[k].children@[i].ffi);
                self.slots().contains_key(c) && self.rank@[k] < self.rank@[c]
            }
    }

    /// Room for one more node in the arena.
    pub open spec fn can_grow(&self) -> bool {
        node_slot_count(self.nodes) < u32::MAX
    }

    /// How many slots the arena has made.
    pub open spec fn slot_count(&self) -> nat {
        node_slot_count(self.nodes)
    }

    /// An empty hierarchy without a root.
    pub fn new() -> (h: Hierarchy)
        ensures
            h.wf(),
            h.slots().is_empty(),
            h.root.is_none(),
            h.slot_count() == 1,
    {
        Hierarchy {
            nodes: node_arena_new(),
            root: None,
            rank: Ghost(Map::empty()),
            next_rank: Ghost(0),
        }
    }

    /// Adds a fresh node showing `buffer` and returns its key.
    pub fn create_node(&mut self, buffer: Option<BufferKey>) -> (k: NodeKey)
        requires
            old(self).wf(),
            old(self).can_grow(),
        ensures
            final(self).wf(),
            !old(self).slots().contains_key(k.ffi),
            is_slot_key(k.ffi),
            final(self).slots().contains_key(k.ffi),
            fresh_node(buffer, final(self).slots()[k.ffi]),
            final(self).slots() == old(self).slots().insert(k.ffi, final(self).slots()[k.ffi]),
            final(self).root == old(self).root,
            old(self).slot_count() <= final(self).slot_count() <= old(self).slot_count() + 1,
            final(self).rank@.contains_key(k.ffi),
            final(self).rank@[k.ffi] + 1 == final(self).next_rank@,
            is_newest(*final(self), k.ffi),
    {
        let node = Node {
            buffer,
            parent: None,
            children: Vec::new(),
            local_x: 0,
            local_y: 0,
            anchor: Anchor::TopLeft,
            pivot: Anchor::TopLeft,
            z_policy: ZPolicy::Relative(0),
            visible: true,
        };
        let k = node_arena_insert(&mut self.nodes, node);
        proof {
            let r = self.next_rank@;
            self.rank@ = self.rank@.insert(k.ffi, r);
            self.next_rank@ = r + 1;
        }
        k
    }

    /// The node under `key`, if live.
    pub fn node(&self, key: NodeKey) -> (r: Option<&Node>)
        ensures
            r == (if self.slots().contains_key(slot_key(key.ffi)) {
                Some(&self.slots()[slot_key(key.ffi)])
            } else {
                None
            }),
    {
        node_arena_get(&self.nodes, key)
    }

    /// Shows or hides the node under `key` (and with it its subtree).
    pub fn set_visible(&mut self, key: NodeKey, visible: bool)
        requires
            old(self).wf(),
        ensures
            final(self).wf(),
            node_replaced(
                *old(self),
                *final(self),
                slot_key(key.ffi),
                Node { visible: visible, ..old(self).slots()[slot_key(key.ffi)] },
            ),
    {
        if let Some(node) = node_arena_get_mut(&mut self.nodes, key) {
            node.visible = visible;
        }
    }

    /// Adds a fresh node showing `buffer` and makes it the root.
    pub fn set_root(&mut self, buffer: Option<BufferKey>) -> (k: NodeKey)
        requires
            old(self).wf(),
            old(self).can_grow(),
        ensures
            final(self).wf(),
            !old(self).slots().contains_key(k.ffi),
            final(self).slots().contains_key(k.ffi),
            fresh_node(buffer, final(self).slots()[k.ffi]),
            final(self).slots() == old(self).slots().insert(k.ffi, final(self).slots()[k.ffi]),
            final(self).root == Some(k),
            is_slot_key(k.ffi),
            old(self).slot_count() <= final(self).slot_count() <= old(self).slot_count() + 1,
    {
        let k = self.create_node(buffer);
        self.root = Some(k);
        k
    }
}

} // verus!

verus! {

// ---------------------------------------------------------------------------
// Building nodes
// ---------------------------------------------------------------------------

/// `n` with its parent set to `p`.
pub open spec fn node_with_parent(n: Node, p: NodeKey) -> Node {
    Node { parent: Some(p), ..n }
}

/// `m` is `n` with `c` appended to its children.
pub open spec fn child_appended(n: Node, m: Node, c: NodeKey) -> bool {
    &&& m.children@ == n.children@.push(c)
    &&& m.buffer == n.buffer
    &&& m.parent == n.parent
    &&& m.local_x == n.local_x
    &&& m.local_y == n.local_y
    &&& m.anchor == n.anchor
    &&& m.pivot == n.pivot
    &&& m.z_policy == n.z_policy
    &&& m.visible == n.visible
}

/// `k` is live and younger than every other live node.
pub open spec fn is_newest(h: Hierarchy, k: u64) -> bool {
    &&& h.slots().contains_key(k)
    &&& forall|p: u64| #[trigger]
        h.slots().contains_key(p) && p != k ==> h.rank@[p] < h.rank@[k]
}

/// `b` is `a` with the live node `k` (if it is live) replaced by
/// `f_node`, and nothing else changed.
pub open spec fn node_replaced(a: Hierarchy, b: Hierarchy, k: u64, f_node: Node) -> bool {
    &&& b.slots() == (if a.slots().contains_key(k) {
        a.slots().insert(k, f_node)
    } else {
        a.slots()
    })
    &&& b.root == a.root
    &&& b.rank == a.rank
    &&& b.next_rank == a.next_rank
    &&& b.slot_count() == a.slot_count()
}

/// Sets the fields of a freshly attached node, step by step.
pub struct NodeBuilder<'a> {
    pub hierarchy: &'a mut Hierarchy,
    pub node_key: NodeKey,
}

impl Hierarchy {
    /// Adds a fresh node showing `buffer` and returns a builder for it.
    pub fn attach(&mut self, buffer: Option<BufferKey>) -> (b: NodeBuilder<'_>)
        requires
            old(self).wf(),
            old(self).can_grow(),
        ensures
            b.hierarchy.wf(),
            is_newest(*b.hierarchy, b.node_key.ffi),
            is_slot_key(b.node_key.ffi),
            !old(self).slots().contains_key(b.node_key.ffi),
            fresh_node(buffer, b.hierarchy.slots()[b.node_key.ffi]),
            b.hierarchy.slots() == old(self).slots().insert(
                b.node_key.ffi,
                b.hierarchy.slots()[b.node_key.ffi],
            ),
            b.hierarchy.root == old(self).root,
            old(self).slot_count() <= b.hierarchy.slot_count() <= old(self).slot_count() + 1,
            *final(b.hierarchy) == *final(self),
    {
        let key = self.create_node(buffer);
        NodeBuilder { hierarchy: self, node_key: key }
    }
}

impl<'a> NodeBuilder<'a> {
    /// Makes `parent` the node's parent and appends the node to the
    /// parent's children (each only where that node is live).
    pub fn to(self, parent: NodeKey) -> (b: Self)
        requires
            self.hierarchy.wf(),
            is_newest(*self.hierarchy, self.node_key.ffi),
        ensures
            b.node_key == self.node_key,
            *final(b.hierarchy) == *final(self.hierarchy),
            ({
                let a = *old(self.hierarchy);
                let nk = self.node_key.ffi;
                let pk = slot_key(parent.ffi);
                &&& b.hierarchy.slots().dom() == a.slots().dom()
                &&& forall|k: u64| #[trigger]
                    a.slots().contains_key(k) && k != pk && k != nk ==> b.hierarchy.slots()[k] == a.slots()[k]
                &&& pk != nk ==> b.hierarchy.slots()[nk] == node_with_parent(a.slots()[nk], parent)
                &&& pk != nk && a.slots().contains_key(pk) ==> child_appended(
                    a.slots()[pk],
                    b.hierarchy.slots()[pk],
                    self.node_key,
                )
                &&& pk == nk ==> child_appended(
                    node_with_parent(a.slots()[nk], parent),
                    b.hierarchy.slots()[nk],
                    self.node_key,
                )
                &&& b.hierarchy.root == a.root
                &&& b.hierarchy.rank == a.rank
                &&& b.hierarchy.next_rank == a.next_rank
                &&& b.hierarchy.slot_count() == a.slot_count()
            }),
            slot_key(parent.ffi) != self.node_key.ffi ==> b.hierarchy.wf() && is_newest(*b.hierarchy, b.node_key.ffi),
    {
        let NodeBuilder { hierarchy, node_key } = self;
        let ghost a = *hierarchy;
        proof {
            lemma_slot_key_idempotent(node_key.ffi);
        }
        if let Some(node) = node_arena_get_mut(&mut hierarchy.nodes, node_key) {
            node.parent = Some(parent);
        }
        let ghost mid = *hierarchy;
        if let Some(parent_node) = node_arena_get_mut(&mut hierarchy.nodes, parent) {
            parent_node.children.push(node_key);
        }
        proof {
            let pk = slot_key(parent.ffi);
            let nk = node_key.ffi;
            if pk != nk {
                assert forall|k: u64, i: int|
                    hierarchy.slots().contains_key(k) && 0 <= i < hierarchy.slots()[k].children@.len() implies {
                        let c = slot_key(#[trigger] hierarchy.slots()[k].children@[i].ffi);
                        hierarchy.slots().contains_key(c) && hierarchy.rank@[k] < hierarchy.rank@[c]
                    } by {
                    if k == pk && i == hierarchy.slots()[k].children@.len() - 1 {
                        assert(hierarchy.slots()[k].children@[i] == node_key);
                        assert(a.slots().contains_key(k));
                    } else {
                        assert(hierarchy.slots()[k].children@[i] == a.slots()[k].children@[i]);
                    }
                }
            }
        }
        NodeBuilder { hierarchy, node_key }
    }

    /// Sets the node's offset, in the parent's tiles.
    pub fn at(self, x: i32, y: i32) -> (b: Self)
        ensures
            b.node_key == self.node_key,
            *final(b.hierarchy) == *final(self.hierarchy),
            node_replaced(
                *old(self.hierarchy),
                *b.hierarchy,
                slot_key(self.node_key.ffi),
                Node { local_x: x, local_y: y, ..old(self.hierarchy).slots()[slot_key(self.node_key.ffi)] },
            ),
            old(self.hierarchy).wf() ==> b.hierarchy.wf(),
            is_newest(*old(self.hierarchy), self.node_key.ffi) ==> is_newest(*b.hierarchy, b.node_key.ffi),
    {
        let NodeBuilder { hierarchy, node_key } = self;
        if let Some(node) = node_arena_get_mut(&mut hierarchy.nodes, node_key) {
            node.local_x = x;
            node.local_y = y;
        }
        NodeBuilder { hierarchy, node_key }
    }

    /// Sets the node's z policy.
    pub fn with_z(self, policy: ZPolicy) -> (b: Self)
        ensures
            b.node_key == self.node_key,
            *final(b.hierarchy) == *final(self.hierarchy),
            node_replaced(
                *old(self.hierarchy),
                *b.hierarchy,
                slot_key(self.node_key.ffi),
                Node { z_policy: policy, ..old(self.hierarchy).slots()[slot_key(self.node_key.ffi)] },
            ),
            old(self.hierarchy).wf() ==> b.hierarchy.wf(),
            is_newest(*old(self.hierarchy), self.node_key.ffi) ==> is_newest(*b.hierarchy, b.node_key.ffi),
    {
        let NodeBuilder { hierarchy, node_key } = self;
        if let Some(node) = node_arena_get_mut(&mut hierarchy.nodes, node_key) {
            node.z_policy = policy;
        }
        NodeBuilder { hierarchy, node_key }
    }

    /// Sets the reference point on the parent.
    pub fn anchor(self, anchor: Anchor) -> (b: Self)
        ensures
            b.node_key == self.node_key,
            *final(b.hierarchy) == *final(self.hierarchy),
            node_replaced(
                *old(self.hierarchy),
                *b.hierarchy,
                slot_key(self.node_key.ffi),
                Node { anchor: anchor, ..old(self.hierarchy).slots()[slot_key(self.node_key.ffi)] },
            ),
            old(self.hierarchy).wf() ==> b.hierarchy.wf(),
            is_newest(*old(self.hierarchy), self.node_key.ffi) ==> is_newest(*b.hierarchy, b.node_key.ffi),
    {
        let NodeBuilder { hierarchy, node_key } = self;
        if let Some(node) = node_arena_get_mut(&mut hierarchy.nodes, node_key) {
            node.anchor = anchor;
        }
        NodeBuilder { hierarchy, node_key }
    }

    /// Sets the reference point on the node itself.
    pub fn pivot(self, pivot: Anchor) -> (b: Self)
        ensures
            b.node_key == self.node_key,
            *final(b.hierarchy) == *final(self.hierarchy),
            node_replaced(
                *old(self.hierarchy),
                *b.hierarchy,
                slot_key(self.node_key.ffi),
                Node { pivot: pivot, ..old(self.hierarchy).slots()[slot_key(self.node_key.ffi)] },
            ),
            old(self.hierarchy).wf() ==> b.hierarchy.wf(),
            is_newest(*old(self.hierarchy), self.node_key.ffi) ==> is_newest(*b.hierarchy, b.node_key.ffi),
    {
        let NodeBuilder { hierarchy, node_key } = self;
        if let Some(node) = node_arena_get_mut(&mut hierarchy.nodes, node_key) {
            node.pivot = pivot;
        }
        NodeBuilder { hierarchy, node_key }
    }

    /// The key of the node being built; the hierarchy stays as it is.
    pub fn key(self) -> (k: NodeKey)
        ensures
            k == self.node_key,
            *final(self.hierarchy) == *old(self.hierarchy),
    {
        self.node_key
    }
}

} // verus!
verus! {

// ---------------------------------------------------------------------------
// The layout pass
// ---------------------------------------------------------------------------

/// Where a node's grid lies: top-left pixel, size in tiles, tile size in
/// pixels and z-index.
#[derive(Debug, Clone, Copy, PartialEq, Eq, Structural)]
pub struct Frame {
    pub x: i32,
    pub y: i32,
    pub cols: i32,
    pub rows: i32,
    pub tile_w: i32,
    pub tile_h: i32,
    pub z: i32,
}

/// Grid size and tile size of what a node shows: the entry of `info`
/// for its buffer, `(0, 0, 1, 1)` for a node without a buffer or a
/// buffer that `info` does not list.
pub open spec fn grid_info(info: Map<u64, (u32, u32, u32, u32)>, buffer: Option<BufferKey>) -> (i32, i32, i32, i32) {
    match buffer {
        Some(b) => if info.contains_key(b.ffi) {
            let t = info[b.ffi];
            (t.0 as i32, t.1 as i32, t.2 as i32, t.3 as i32)
        } else {
            (0, 0, 1, 1)
        },
        None => (0, 0, 1, 1),
    }
}

pub open spec fn fits_i32(v: int) -> bool {
    i32::MIN <= v <= i32::MAX
}

/// The frame of node `n` placed in its parent's frame `p`: the anchor
/// point of the parent's grid plus the offset in parent tiles, minus the
/// node's own pivot point; `None` where a step leaves `i32`.
pub open spec fn node_frame(n: Node, info: Map<u64, (u32, u32, u32, u32)>, p: Frame) -> Option<Frame> {
    let g = grid_info(info, n.buffer);
    let a = anchor_offset(n.anchor, p.cols, p.rows);
    let v = anchor_offset(n.pivot, g.0, g.1);
    let ax = a.0 * p.tile_w;
    let ay = a.1 * p.tile_h;
    let lx = n.local_x * p.tile_w;
    let ly = n.local_y * p.tile_h;
    let vx = v.0 * g.2;
    let vy = v.1 * g.3;
    let x1 = p.x + ax;
    let x2 = x1 + lx;
    let x3 = x2 - vx;
    let y1 = p.y + ay;
    let y2 = y1 + ly;
    let y3 = y2 - vy;
    let z: int = match n.z_policy {
        ZPolicy::Relative(dz) => p.z + dz,
        ZPolicy::Absolute(az) => az as int,
        ZPolicy::Inherit => p.z as int,
    };
    if fits_i32(ax) && fits_i32(ay) && fits_i32(lx) && fits_i32(ly) && fits_i32(vx) && fits_i32(vy)
        && fits_i32(x1) && fits_i32(x2) && fits_i32(x3) && fits_i32(y1) && fits_i32(y2) && fits_i32(y3)
        && fits_i32(z) {
        Some(Frame { x: x3 as i32, y: y3 as i32, cols: g.0, rows: g.1, tile_w: g.2, tile_h: g.3, z: z as i32 })
    } else {
        None
    }
}

/// Draw items of the subtree of node `k` placed in the parent frame
/// `p`, in depth-first order, parents before children; `None` where
/// a position or z-index leaves `i32`.  A node that is not live, or is
/// hidden, contributes nothing, and neither do its children.
pub open spec fn layout_node(
    slots: Map<u64, Node>,
    rank: Map<u64, nat>,
    next: nat,
    info: Map<u64, (u32, u32, u32, u32)>,
    k: u64,
    p: Frame,
) -> Option<Seq<RenderItem>>
    decreases next - rank[k], slots[k].children@.len() + 1,
{
    if !slots.contains_key(k) || !slots[k].visible {
        Some(Seq::empty())
    } else {
        match node_frame(slots[k], info, p) {
            None => None,
            Some(f) => {
                let own = match slots[k].buffer {
                    Some(b) => seq![RenderItem { buffer: b, screen_x: f.x, screen_y: f.y, z_index: f.z }],
                    None => Seq::empty(),
                };
                match layout_children(slots, rank, next, info, k, slots[k].children@, f) {
                    None => None,
                    Some(rest) => Some(own + rest),
                }
            },
        }
    }
}

/// Draw items of the subtrees of the children `cs` of node `parent`,
/// placed in the parent's frame `f`, one child after another.
pub open spec fn layout_children(
    slots: Map<u64, Node>,
    rank: Map<u64, nat>,
    next: nat,
    info: Map<u64, (u32, u32, u32, u32)>,
    parent: u64,
    cs: Seq<NodeKey>,
    f: Frame,
) -> Option<Seq<RenderItem>>
    decreases next - rank[parent], cs.len(),
{
    if cs.len() == 0 {
        Some(Seq::empty())
    } else {
        let c = slot_key(cs.last().ffi);
        let last = if rank[parent] < rank[c] && rank[c] < next {
            layout_node(slots, rank, next, info, c, f)
        } else {
            Some(Seq::empty())
        };
        match layout_children(slots, rank, next, info, parent, cs.drop_last(), f) {
            None => None,
            Some(front) => match last {
                None => None,
                Some(tail) => Some(front + tail),
            },
        }
    }
}

/// The frame in which the root is placed: origin, z 0, and the grid of
/// what the root shows.
pub open spec fn root_frame(slots: Map<u64, Node>, info: Map<u64, (u32, u32, u32, u32)>, rk: u64) -> Frame {
    let g = if slots.contains_key(rk) {
        grid_info(info, slots[rk].buffer)
    } else {
        (0, 0, 1, 1)
    };
    Frame { x: 0, y: 0, cols: g.0, rows: g.1, tile_w: g.2, tile_h: g.3, z: 0 }
}

/// Draw items of the whole tree, before ordering by z.
pub open spec fn render_layout(h: Hierarchy, info: Map<u64, (u32, u32, u32, u32)>) -> Option<Seq<RenderItem>> {
    match h.root {
        None => Some(Seq::empty()),
        Some(root) => {
            let rk = slot_key(root.ffi);
            layout_node(h.slots(), h.rank@, h.next_rank@, info, rk, root_frame(h.slots(), info, rk))
        },
    }
}

// ---------------------------------------------------------------------------
// Ordering by z
// ---------------------------------------------------------------------------

/// `x` inserted into `s` after every element whose z is at most x's,
/// scanning from the back.
pub open spec fn insert_by_z(s: Seq<RenderItem>, x: RenderItem) -> Seq<RenderItem>
    decreases s.len(),
{
    if s.len() == 0 {
        seq![x]
    } else if s.last().z_index <= x.z_index {
        s.push(x)
    } else {
        insert_by_z(s.drop_last(), x).push(s.last())
    }
}

/// `s` ordered by z-index; items of equal z keep their order.
pub open spec fn sort_by_z(s: Seq<RenderItem>) -> Seq<RenderItem>
    decreases s.len(),
{
    if s.len() == 0 {
        s
    } else {
        insert_by_z(sort_by_z(s.drop_last()), s.last())
    }
}

pub open spec fn z_sorted(s: Seq<RenderItem>) -> bool {
    forall|i: int, j: int| 0 <= i <= j < s.len() ==> #[trigger] s[i].z_index <= #[trigger] s[j].z_index
}

/// Inserting at `j`, past every element of z at most x's and before
/// every larger one, is `insert_by_z`.
proof fn lemma_insert_at(s: Seq<RenderItem>, x: RenderItem, j: int)
    requires
        0 <= j <= s.len(),
        forall|t: int| j <= t < s.len() ==> #[trigger] s[t].z_index > x.z_index,
        j > 0 ==> s[j - 1].z_index <= x.z_index,
    ensures
        insert_by_z(s, x) == s.insert(j, x),
    decreases s.len(),
{
    if s.len() == 0 {
        assert(s.insert(j, x) =~= seq![x]);
    } else if j == s.len() {
        assert(s.insert(j, x) =~= s.push(x));
    } else {
        let d = s.drop_last();
        assert(s.last().z_index > x.z_index);
        lemma_insert_at(d, x, j);
        assert(s.insert(j, x) =~= d.insert(j, x).push(s.last()));
    }
}

/// Inserting by z into a z-sorted sequence keeps it z-sorted and adds
/// exactly the one item.
proof fn lemma_insert_by_z_sorted(s: Seq<RenderItem>, x: RenderItem)
    requires
        z_sorted(s),
    ensures
        z_sorted(insert_by_z(s, x)),
        insert_by_z(s, x).to_multiset() == s.to_multiset().insert(x),
    decreases s.len(),
{
    broadcast use vstd::multiset::group_multiset_axioms;
    broadcast use vstd::seq_lib::group_to_multiset_ensures;
    if s.len() == 0 {
        assert(seq![x] =~= Seq::<RenderItem>::empty().push(x));
    } else if s.last().z_index <= x.z_index {
    } else {
        let d = s.drop_last();
        assert(z_sorted(d));
        lemma_insert_by_z_sorted(d, x);
        let t = insert_by_z(d, x);
        assert(s =~= d.push(s.last()));
        assert forall|i: int, j: int| 0 <= i <= j < t.push(s.last()).len() implies
            #[trigger] t.push(s.last())[i].z_index <= #[trigger] t.push(s.last())[j].z_index by {
            if j == t.len() && i < t.len() {
                assert(t.to_multiset().count(t[i]) > 0);
                assert(t[i] == x || d.to_multiset().count(t[i]) > 0);
                if t[i] != x {
                    let w = choose|w: int| 0 <= w < d.len() && d[w] == t[i];
                    assert(d[w] == s[w]);
                }
            }
        }
    }
}

/// The items of `s` whose z-index is `z`, in the order `s` has them.
pub open spec fn items_at_z(s: Seq<RenderItem>, z: i32) -> Seq<RenderItem> {
    s.filter(|it: RenderItem| it.z_index == z)
}

/// Inserting by z puts `x` behind every item of its own z-index and
/// leaves the items of every other z-index as they were.
proof fn lemma_insert_by_z_stable(s: Seq<RenderItem>, x: RenderItem, z: i32)
    ensures
        items_at_z(insert_by_z(s, x), z) == (if x.z_index == z {
            items_at_z(s, z).push(x)
        } else {
            items_at_z(s, z)
        }),
    decreases s.len(),
{
    reveal(Seq::filter);
    let p = |it: RenderItem| it.z_index == z;
    if s.len() == 0 {
        assert(seq![x].drop_last() =~= s);
        assert(seq![x].last() == x);
    } else if s.last().z_index <= x.z_index {
        assert(s.push(x).drop_last() =~= s);
    } else {
        let d = s.drop_last();
        lemma_insert_by_z_stable(d, x, z);
        let t = insert_by_z(d, x);
        assert(t.push(s.last()).drop_last() =~= t);
        assert(s.filter(p) == (if p(s.last()) { d.filter(p).push(s.last()) } else { d.filter(p) }));
    }
}

/// Ordering by z keeps, for every z-index, the items of that z-index in
/// the order they came in.
pub proof fn lemma_sort_by_z_stable(s: Seq<RenderItem>, z: i32)
    ensures
        items_at_z(sort_by_z(s), z) == items_at_z(s, z),
    decreases s.len(),
{
    reveal(Seq::filter);
    if s.len() > 0 {
        let d = s.drop_last();
        lemma_sort_by_z_stable(d, z);
        lemma_insert_by_z_stable(sort_by_z(d), s.last(), z);
        let p = |it: RenderItem| it.z_index == z;
        assert(s.filter(p) == (if p(s.last()) { d.filter(p).push(s.last()) } else { d.filter(p) }));
    }
}

/// The render list `collect_render_list` gives is ordered by z-index and
/// holds exactly the draw items of the layout pass: one per node with a
/// buffer reached from the root through visible nodes.  Items of equal
/// z-index keep the order of the layout pass (depth first, parents
/// before children).
pub proof fn law_render_list_sorted(h: Hierarchy, info: Map<u64, (u32, u32, u32, u32)>)
    requires
        render_layout(h, info) is Some,
    ensures
        z_sorted(sort_by_z(render_layout(h, info).unwrap())),
        sort_by_z(render_layout(h, info).unwrap()).to_multiset() == render_layout(h, info).unwrap().to_multiset(),
        forall|z: i32| #[trigger] items_at_z(sort_by_z(render_layout(h, info).unwrap()), z)
            == items_at_z(render_layout(h, info).unwrap(), z),
{
    lemma_sort_by_z(render_layout(h, info).unwrap());
    assert forall|z: i32| #[trigger] items_at_z(sort_by_z(render_layout(h, info).unwrap()), z)
        == items_at_z(render_layout(h, info).unwrap(), z) by {
        lemma_sort_by_z_stable(render_layout(h, info).unwrap(), z);
    }
}

/// The ordered render list is ordered by z and holds the same items.
pub proof fn lemma_sort_by_z(s: Seq<RenderItem>)
    ensures
        z_sorted(sort_by_z(s)),
        sort_by_z(s).to_multiset() == s.to_multiset(),
    decreases s.len(),
{
    broadcast use vstd::multiset::group_multiset_axioms;
    broadcast use vstd::seq_lib::group_to_multiset_ensures;
    if s.len() > 0 {
        lemma_sort_by_z(s.drop_last());
        lemma_insert_by_z_sorted(sort_by_z(s.drop_last()), s.last());
        assert(s =~= s.drop_last().push(s.last()));
    }
}

/// Orders `items` by z-index, keeping the order of items of equal z.
fn sort_items_by_z(items: Vec<RenderItem>) -> (r: Vec<RenderItem>)
    ensures
        r@ == sort_by_z(items@),
{
    let mut out: Vec<RenderItem> = Vec::new();
    let n = items.len();
    let mut i: usize = 0;
    while i < n
        invariant
            n == items.len(),
            i <= n,
            out@ == sort_by_z(items@.take(i as int)),
        decreases n - i,
    {
        let x = items[i];
        proof {
            lemma_sort_by_z(items@.take(i as int));
        }
        let mut j = out.len();
        while j > 0 && out[j - 1].z_index > x.z_index
            invariant
                j <= out.len(),
                forall|t: int| j <= t < out.len() ==> #[trigger] out@[t].z_index > x.z_index,
            decreases j,
        {
            j -= 1;
        }
        proof {
            lemma_insert_at(out@, x, j as int);
            assert(items@.take(i + 1) =~= items@.take(i as int).push(x));
            assert(items@.take(i + 1).drop_last() =~= items@.take(i as int));
        }
        out.insert(j, x);
        i += 1;
    }
    assert(items@.take(n as int) =~= items@);
    out
}

} // verus!
verus! {

/// A layout of some children that succeeds also succeeds on each prefix
/// of them, and one more child appends that child's items.
proof fn lemma_children_prefix(
    slots: Map<u64, Node>,
    rank: Map<u64, nat>,
    next: nat,
    info: Map<u64, (u32, u32, u32, u32)>,
    parent: u64,
    cs: Seq<NodeKey>,
    f: Frame,
    i: int,
)
    requires
        0 <= i <= cs.len(),
        layout_children(slots, rank, next, info, parent, cs, f) is Some,
    ensures
        layout_children(slots, rank, next, info, parent, cs.take(i), f) is Some,
    decreases cs.len(),
{
    if i < cs.len() {
        lemma_children_prefix(slots, rank, next, info, parent, cs.drop_last(), f, i);
        assert(cs.drop_last().take(i) =~= cs.take(i));
    } else {
        assert(cs.take(i) =~= cs);
    }
}

/// Product of two `i32`s, computed without overflow.
fn wide_mul(a: i32, b: i32) -> (r: i64)
    ensures
        r == a as int * b as int,
{
    assert(i64::MIN <= a as int * b as int <= i64::MAX) by (nonlinear_arith)
        requires
            i32::MIN <= a <= i32::MAX,
            i32::MIN <= b <= i32::MAX,
    {
        assert(-0x8000_0000 <= a as int <= 0x8000_0000);
        assert(-0x8000_0000 <= b as int <= 0x8000_0000);
    }
    (a as i64) * (b as i64)
}

/// Whether `v` is an `i32` value.
fn fits_i32_exec(v: i64) -> (b: bool)
    ensures
        b == fits_i32(v as int),
{
    -0x8000_0000i64 <= v && v <= 0x7fff_ffffi64
}

/// A layout of some children that fails on a prefix of them fails on
/// all of them.
proof fn lemma_children_none(
    slots: Map<u64, Node>,
    rank: Map<u64, nat>,
    next: nat,
    info: Map<u64, (u32, u32, u32, u32)>,
    parent: u64,
    cs: Seq<NodeKey>,
    f: Frame,
    i: int,
)
    requires
        0 <= i <= cs.len(),
        layout_children(slots, rank, next, info, parent, cs.take(i), f) is None,
    ensures
        layout_children(slots, rank, next, info, parent, cs, f) is None,
    decreases cs.len(),
{
    if i < cs.len() {
        assert(cs.drop_last().take(i) =~= cs.take(i));
        lemma_children_none(slots, rank, next, info, parent, cs.drop_last(), f, i);
    } else {
        assert(cs.take(i) =~= cs);
    }
}

impl Hierarchy {
    /// Appends the draw items of the subtree of `node_key` placed in
    /// `parent`; `false` when a position or z-index of the subtree leaves
    /// `i32` (the list is then left part-way).
    fn process_node(
        &self,
        node_key: NodeKey,
        parent: Frame,
        info: &HashMap<u64, (u32, u32, u32, u32)>,
        list: &mut Vec<RenderItem>,
    ) -> (ok: bool)
        requires
            self.wf(),
        ensures
            ok == layout_node(self.slots(), self.rank@, self.next_rank@, info@, slot_key(node_key.ffi), parent) is Some,
            ok ==> final(list)@ == old(list)@ + layout_node(
                self.slots(),
                self.rank@,
                self.next_rank@,
                info@,
                slot_key(node_key.ffi),
                parent,
            ).unwrap(),
        decreases self.next_rank@ - self.rank@[slot_key(node_key.ffi)],
    {
        let ghost k = slot_key(node_key.ffi);
        let node = match node_arena_get(&self.nodes, node_key) {
            Some(n) => n,
            None => {
                assert(list@ =~= list@ + Seq::<RenderItem>::empty());
                return true;
            },
        };
        if !node.visible {
            assert(list@ =~= list@ + Seq::<RenderItem>::empty());
            return true;
        }
        let (cols, rows, tile_w, tile_h) = match node.buffer {
            Some(buf) => match info.get(&buf.ffi) {
                Some(t) => (t.0 as i32, t.1 as i32, t.2 as i32, t.3 as i32),
                None => (0i32, 0i32, 1i32, 1i32),
            },
            None => (0i32, 0i32, 1i32, 1i32),
        };
        let ghost g = grid_info(info@, node.buffer);
        assert((cols, rows, tile_w, tile_h) == g);
        let (anchor_cols, anchor_rows) = node.anchor.offset(parent.cols, parent.rows);
        let (pivot_cols, pivot_rows) = node.pivot.offset(cols, rows);
        let ax = wide_mul(anchor_cols, parent.tile_w);
        let ay = wide_mul(anchor_rows, parent.tile_h);
        let lx = wide_mul(node.local_x, parent.tile_w);
        let ly = wide_mul(node.local_y, parent.tile_h);
        let vx = wide_mul(pivot_cols, tile_w);
        let vy = wide_mul(pivot_rows, tile_h);
        if !(fits_i32_exec(ax) && fits_i32_exec(ay) && fits_i32_exec(lx) && fits_i32_exec(ly) && fits_i32_exec(vx)
            && fits_i32_exec(vy)) {
            return false;
        }
        let x1 = parent.x as i64 + ax;
        let y1 = parent.y as i64 + ay;
        if !(fits_i32_exec(x1) && fits_i32_exec(y1)) {
            return false;
        }
        let x2 = x1 + lx;
        let y2 = y1 + ly;
        if !(fits_i32_exec(x2) && fits_i32_exec(y2)) {
            return false;
        }
        let x3 = x2 - vx;
        let y3 = y2 - vy;
        if !(fits_i32_exec(x3) && fits_i32_exec(y3)) {
            return false;
        }
        let z: i64 = match node.z_policy {
            ZPolicy::Relative(dz) => parent.z as i64 + dz as i64,
            ZPolicy::Absolute(az) => az as i64,
            ZPolicy::Inherit => parent.z as i64,
        };
        if !fits_i32_exec(z) {
            return false;
        }
        let screen_x = x3 as i32;
        let screen_y = y3 as i32;
        let z_index = z as i32;
        let ghost f = node_frame(*node, info@, parent).unwrap();
        let frame = Frame { x: screen_x, y: screen_y, cols, rows, tile_w, tile_h, z: z_index };
        assert(frame == f);
        let ghost start = list@;
        if let Some(buffer) = node.buffer {
            list.push(RenderItem { buffer, screen_x, screen_y, z_index });
        }
        let ghost own = list@.subrange(start.len() as int, list@.len() as int);
        let ghost cs = node.children@;
        let n = node.children.len();
        let mut i: usize = 0;
        while i < n
            invariant
                self.wf(),
                k == slot_key(node_key.ffi),
                self.slots().contains_key(k),
                *node == self.slots()[k],
                node.visible,
                node_frame(*node, info@, parent) == Some(frame),
                cs == node.children@,
                n == cs.len(),
                i <= n,
                own == (match node.buffer {
                    Some(b) => seq![RenderItem { buffer: b, screen_x: frame.x, screen_y: frame.y, z_index: frame.z }],
                    None => Seq::<RenderItem>::empty(),
                }),
                layout_children(self.slots(), self.rank@, self.next_rank@, info@, k, cs.take(i as int), frame) is Some,
                list@ == start + own + layout_children(
                    self.slots(),
                    self.rank@,
                    self.next_rank@,
                    info@,
                    k,
                    cs.take(i as int),
                    frame,
                ).unwrap(),
            decreases n - i,
        {
            let child = node.children[i];
            proof {
                assert(cs.take(i + 1).drop_last() =~= cs.take(i as int));
                assert(cs.take(i + 1).last() == child);
                let c = slot_key(child.ffi);
                assert(self.slots()[k].children@[i as int] == child);
                assert(self.slots().contains_key(c) && self.rank@[k] < self.rank@[c]);
            }
            let child_ok = self.process_node(child, frame, info, list);
            if !child_ok {
                proof {
                    let c = slot_key(child.ffi);
                    assert(self.slots().contains_key(c) && self.rank@[k] < self.rank@[c] && self.rank@[c] < self.next_rank@);
                    assert(layout_node(self.slots(), self.rank@, self.next_rank@, info@, c, frame) is None);
                    assert(layout_children(self.slots(), self.rank@, self.next_rank@, info@, k, cs.take(i + 1), frame) is None);
                    lemma_children_none(self.slots(), self.rank@, self.next_rank@, info@, k, cs, frame, i + 1);
                    assert(self.slots()[k].visible);
                    assert(self.slots()[k].children@ == cs);
                    assert(node_frame(self.slots()[k], info@, parent) == Some(frame));
                    assert(layout_node(self.slots(), self.rank@, self.next_rank@, info@, k, parent) is None);
                }
                return false;
            }
            proof {
                let before = layout_children(self.slots(), self.rank@, self.next_rank@, info@, k, cs.take(i as int), frame).unwrap();
                let part = layout_node(self.slots(), self.rank@, self.next_rank@, info@, slot_key(child.ffi), frame).unwrap();
                assert(start + own + before + part =~= start + own + (before + part));
            }
            i += 1;
        }
        assert(cs.take(n as int) =~= cs);
        assert(start + own + layout_children(self.slots(), self.rank@, self.next_rank@, info@, k, cs, frame).unwrap()
            =~= start + (own + layout_children(self.slots(), self.rank@, self.next_rank@, info@, k, cs, frame).unwrap()));
        true
    }

    /// The draw items of the tree ordered by z-index, as
    /// `collect_render_list` gives them, or `None` when a position or
    /// z-index of the layout leaves `i32`.
    pub fn try_collect_render_list(&self, info: &HashMap<u64, (u32, u32, u32, u32)>) -> (r: Option<Vec<RenderItem>>)
        requires
            self.wf(),
        ensures
            r is Some <==> render_layout(*self, info@) is Some,
            r matches Some(v) ==> v@ == sort_by_z(render_layout(*self, info@).unwrap()),
    {
        let mut list: Vec<RenderItem> = Vec::new();
        if let Some(root) = self.root {
            let (cols, rows, tile_w, tile_h) = match node_arena_get(&self.nodes, root) {
                Some(n) => match n.buffer {
                    Some(buf) => match info.get(&buf.ffi) {
                        Some(t) => (t.0 as i32, t.1 as i32, t.2 as i32, t.3 as i32),
                        None => (0i32, 0i32, 1i32, 1i32),
                    },
                    None => (0i32, 0i32, 1i32, 1i32),
                },
                None => (0i32, 0i32, 1i32, 1i32),
            };
            let frame = Frame { x: 0, y: 0, cols, rows, tile_w, tile_h, z: 0 };
            assert(frame == root_frame(self.slots(), info@, slot_key(root.ffi)));
            if !self.process_node(root, frame, info, &mut list) {
                return None;
            }
            assert(list@ =~= render_layout(*self, info@).unwrap());
        } else {
            assert(list@ =~= render_layout(*self, info@).unwrap());
        }
        Some(sort_items_by_z(list))
    }

    /// The draw items of the tree, ordered by z-index (items of equal z in
    /// depth-first order, parents first).  `info` gives, for a buffer key,
    /// the buffer's width and height in tiles and its tile width and
    /// height in pixels; a buffer it does not list counts as `(0, 0, 1, 1)`.
    pub fn collect_render_list(&self, info: &HashMap<u64, (u32, u32, u32, u32)>) -> (r: Vec<RenderItem>)
        requires
            self.wf(),
            render_layout(*self, info@) is Some,
        ensures
            r@ == sort_by_z(render_layout(*self, info@).unwrap()),
    {
        match self.try_collect_render_list(info) {
            Some(v) => v,
            None => Vec::new(),
        }
    }
}

} // verus!
