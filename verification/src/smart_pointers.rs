//! Linked structures held in arenas: a tree with parent links, a cache, a
//! subject with its observers, and an undirected graph.

use vstd::prelude::*;
use crate::text::{same_str, to_chars, to_string};
use crate::text_map::TextMap;

verus! {

/// A node of a tree, with the places of its children and of its parent in
/// the tree's arena.
#[derive(Debug, Clone, Copy, PartialEq, Eq, Structural)]
pub struct TreeNode {
    pub value: i32,
    pub left: Option<usize>,
    pub right: Option<usize>,
    pub parent: Option<usize>,
}

/// Whether the nodes of `nodes` are linked as those of a tree's arena are: a
/// parent stands before its child, and a child that a node names lies in
/// the arena and names that node as its parent.
pub open spec fn well_linked(nodes: Seq<TreeNode>) -> bool {
    forall|i: int|
        0 <= i < nodes.len() ==> {
            &&& (#[trigger] nodes[i]).parent matches Some(p) ==> p < i
            &&& nodes[i].left matches Some(c) ==> i < c < nodes.len() && nodes[c as int].parent
                == Some(i as usize)
            &&& nodes[i].right matches Some(c) ==> i < c < nodes.len() && nodes[c as int].parent
                == Some(i as usize)
        }
}

/// The node without parent that is reached from `node` by going from
/// child to parent.
pub open spec fn root_of(nodes: Seq<TreeNode>, node: int) -> int
    decreases node,
{
    if 0 <= node < nodes.len() {
        match nodes[node].parent {
            Some(p) => if p < node {
                root_of(nodes, p as int)
            } else {
                node
            },
            None => node,
        }
    } else {
        node
    }
}

/// A tree whose nodes lie in an arena; the first node is the root that the
/// tree was made with.
pub struct Tree {
    nodes: Vec<TreeNode>,
}

impl View for Tree {
    type V = Seq<TreeNode>;

    closed spec fn view(&self) -> Seq<TreeNode> {
        self.nodes@
    }
}

/// The arena after the node at `node` got a new child with the value
/// `value`, on the left or on the right.
pub open spec fn with_child(nodes: Seq<TreeNode>, node: int, value: i32, left: bool) -> Seq<
    TreeNode,
> {
    let child = TreeNode { value, left: None, right: None, parent: Some(node as usize) };
    let id = Some(nodes.len() as usize);
    let parent = if left {
        TreeNode { left: id, ..nodes[node] }
    } else {
        TreeNode { right: id, ..nodes[node] }
    };
    nodes.update(node, parent).push(child)
}

impl Tree {
    #[verifier::type_invariant]
    spec fn linked(&self) -> bool {
        well_linked(self.nodes@)
    }

    /// A tree of one node, which lies at place zero.
    pub fn new(value: i32) -> (tree: Self)
        ensures
            tree@ == seq![TreeNode { value, left: None, right: None, parent: None }],
    {
        let mut nodes: Vec<TreeNode> = Vec::new();
        nodes.push(TreeNode { value, left: None, right: None, parent: None });
        Tree { nodes }
    }

    /// The number of nodes in the arena.
    pub fn len(&self) -> (n: usize)
        ensures
            n == self@.len(),
            well_linked(self@),
    {
        proof {
            use_type_invariant(self);
        }
        self.nodes.len()
    }

    /// The node at `node`.
    pub fn node(&self, node: usize) -> (r: Option<TreeNode>)
        ensures
            r == if node < self@.len() {
                Some(self@[node as int])
            } else {
                None
            },
    {
        if node < self.nodes.len() {
            Some(self.nodes[node])
        } else {
            None
        }
    }

    fn add_child(&mut self, node: usize, value: i32, left: bool) -> (r: Option<usize>)
        ensures
            if node < old(self)@.len() && old(self)@.len() < usize::MAX {
                r == Some(old(self)@.len() as usize) && final(self)@ == with_child(
                    old(self)@,
                    node as int,
                    value,
                    left,
                )
            } else {
                r is None && final(self)@ == old(self)@
            },
    {
        proof {
            use_type_invariant(&*self);
        }
        if node >= self.nodes.len() || self.nodes.len() == usize::MAX {
            return None;
        }
        let mut nodes: Vec<TreeNode> = Vec::new();
        core::mem::swap(&mut self.nodes, &mut nodes);
        let ghost before = nodes@;
        let id: usize = nodes.len();
        let known: TreeNode = nodes[node];
        let parent: TreeNode = if left {
            TreeNode { left: Some(id), ..known }
        } else {
            TreeNode { right: Some(id), ..known }
        };
        nodes.set(node, parent);
        nodes.push(TreeNode { value, left: None, right: None, parent: Some(node) });
        proof {
            assert(nodes@ =~= with_child(before, node as int, value, left));
            assert forall|i: int| 0 <= i < nodes@.len() implies {
                &&& (#[trigger] nodes@[i]).parent matches Some(p) ==> p < i
                &&& nodes@[i].left matches Some(c) ==> i < c < nodes@.len() && nodes@[c as int].parent
                    == Some(i as usize)
                &&& nodes@[i].right matches Some(c) ==> i < c < nodes@.len()
                    && nodes@[c as int].parent == Some(i as usize)
            } by {
                assert(forall|k: int|
                    0 <= k < before.len() ==> (#[trigger] nodes@[k]).parent == before[k].parent);
                if i < before.len() {
                    assert(before[i].parent matches Some(p) ==> p < i);
                    if i != node {
                        assert(nodes@[i] == before[i]);
                    }
                    if let Some(c) = nodes@[i].left {
                        if c < before.len() {
                            assert(before[i].left == Some(c));
                            assert(before[c as int].parent == Some(i as usize));
                        }
                    }
                    if let Some(c) = nodes@[i].right {
                        if c < before.len() {
                            assert(before[i].right == Some(c));
                            assert(before[c as int].parent == Some(i as usize));
                        }
                    }
                }
            }
        }
        core::mem::swap(&mut self.nodes, &mut nodes);
        Some(id)
    }

    /// Gives the node at `node` a new left child with the value `value`, and
    /// returns the child's place. A child that the node had on that side is
    /// no longer its child, but still names it as its parent. Nothing
    /// happens where the arena has no such node, or no room.
    pub fn add_left_child(&mut self, node: usize, value: i32) -> (r: Option<usize>)
        ensures
            if node < old(self)@.len() && old(self)@.len() < usize::MAX {
                r == Some(old(self)@.len() as usize) && final(self)@ == with_child(
                    old(self)@,
                    node as int,
                    value,
                    true,
                )
            } else {
                r is None && final(self)@ == old(self)@
            },
    {
        self.add_child(node, value, true)
    }

    /// Gives the node at `node` a new right child with the value `value`,
    /// and returns the child's place.
    pub fn add_right_child(&mut self, node: usize, value: i32) -> (r: Option<usize>)
        ensures
            if node < old(self)@.len() && old(self)@.len() < usize::MAX {
                r == Some(old(self)@.len() as usize) && final(self)@ == with_child(
                    old(self)@,
                    node as int,
                    value,
                    false,
                )
            } else {
                r is None && final(self)@ == old(self)@
            },
    {
        self.add_child(node, value, false)
    }

    /// The value of the parent of the node at `node`.
    pub fn get_parent_value(&self, node: usize) -> (r: Option<i32>)
        ensures
            r == if node < self@.len() && self@[node as int].parent is Some {
                Some(self@[self@[node as int].parent->0 as int].value)
            } else {
                None
            },
    {
        proof {
            use_type_invariant(self);
        }
        if node >= self.nodes.len() {
            return None;
        }
        match self.nodes[node].parent {
            Some(p) => Some(self.nodes[p].value),
            None => None,
        }
    }

    /// The root above the node at `node`, searched from inside the node: a
    /// node can name its parent but not itself, so the search ends at the
    /// root with nothing in hand.
    pub fn find_root(&self, node: usize) -> (r: Option<usize>)
        ensures
            r is None,
        decreases node,
    {
        proof {
            use_type_invariant(self);
        }
        if node >= self.nodes.len() {
            return None;
        }
        match self.nodes[node].parent {
            Some(p) => self.find_root(p),
            None => None,
        }
    }

    /// The root above the node at `node`, searched from a handle to the
    /// node: the node itself where it has no parent.
    pub fn find_root_from(&self, node: usize) -> (r: Option<usize>)
        ensures
            r == if node < self@.len() {
                Some(root_of(self@, node as int) as usize)
            } else {
                None
            },
            r matches Some(root) ==> root <= node && self@[root as int].parent is None,
        decreases node,
    {
        proof {
            use_type_invariant(self);
        }
        if node >= self.nodes.len() {
            return None;
        }
        match self.nodes[node].parent {
            Some(p) => self.find_root_from(p),
            None => Some(node),
        }
    }
}

/// A cache of values by key.
pub struct Cache<V> {
    data: TextMap<V>,
}

impl<V> View for Cache<V> {
    type V = Map<Seq<char>, V>;

    closed spec fn view(&self) -> Map<Seq<char>, V> {
        self.data@
    }
}

impl<V: Clone> Cache<V> {
    /// An empty cache.
    pub fn new() -> (cache: Self)
        ensures
            cache@ == Map::<Seq<char>, V>::empty(),
    {
        Cache { data: TextMap::new() }
    }

    /// A copy of the value cached for `key`.
    pub fn get(&self, key: &str) -> (r: Option<V>)
        ensures
            match r {
                Some(value) => self@.contains_key(key@) && cloned(self@[key@], value),
                None => !self@.contains_key(key@),
            },
    {
        match self.data.get(key) {
            Some(value) => Some(value.clone()),
            None => None,
        }
    }

    /// Caches `value` for `key`, in place of what was cached for it.
    pub fn set(&mut self, key: String, value: V)
        ensures
            final(self)@ == old(self)@.insert(key@, value),
    {
        self.data.insert(key, value);
    }

    /// The number of keys.
    pub fn size(&self) -> (n: usize)
        ensures
            self@.dom().finite(),
            n == self@.dom().len(),
    {
        self.data.len()
    }

    /// Empties the cache.
    pub fn clear(&mut self)
        ensures
            final(self)@ == Map::<Seq<char>, V>::empty(),
    {
        self.data.clear();
    }

    /// Takes `key` out of the cache, and returns what was cached for it.
    pub fn remove(&mut self, key: &str) -> (r: Option<V>)
        ensures
            final(self)@ == old(self)@.remove(key@),
            r == if old(self)@.contains_key(key@) {
                Some(old(self)@[key@])
            } else {
                None::<V>
            },
    {
        self.data.remove(key)
    }
}

/// What is told when something happens.
pub trait Observer {
    /// The observer's name.
    spec fn id_text(&self) -> Seq<char>;

    /// What the observer was told, oldest first.
    spec fn received(&self) -> Seq<Seq<char>>;

    /// Tells the observer `data`.
    fn update(&mut self, data: &str)
        ensures
            final(self).id_text() == old(self).id_text(),
            final(self).received() == old(self).received().push(data@),
    ;

    fn id(&self) -> (id: &str)
        ensures
            id@ == self.id_text(),
    ;
}

/// An observer that keeps what it was told.
#[derive(Debug)]
pub struct ConcreteObserver {
    id: String,
    data: Vec<String>,
}

impl ConcreteObserver {
    /// An observer that was told nothing yet.
    pub fn new(id: String) -> (observer: Self)
        ensures
            observer.id_text() == id@,
            observer.received() == Seq::<Seq<char>>::empty(),
    {
        let observer = ConcreteObserver { id, data: Vec::new() };
        assert(observer.received() =~= Seq::<Seq<char>>::empty());
        observer
    }

    /// What the observer was told, oldest first.
    pub fn get_received_data(&self) -> (r: Vec<String>)
        ensures
            r@.map_values(|s: String| s@) == self.received(),
    {
        let mut r: Vec<String> = Vec::new();
        let mut i: usize = 0;
        while i < self.data.len()
            invariant
                i <= self.data.len(),
                r@.map_values(|s: String| s@) == self.received().take(i as int),
            decreases self.data.len() - i,
        {
            let ghost before = r@;
            r.push(self.data[i].clone());
            assert(r@.map_values(|s: String| s@) =~= before.map_values(|s: String| s@).push(
                self.data@[i as int]@,
            ));
            assert(self.received().take(i + 1) =~= self.received().take(i as int).push(
                self.data@[i as int]@,
            ));
            i = i + 1;
        }
        assert(self.received().take(self.data@.len() as int) =~= self.received());
        r
    }
}

impl Observer for ConcreteObserver {
    closed spec fn id_text(&self) -> Seq<char> {
        self.id@
    }

    closed spec fn received(&self) -> Seq<Seq<char>> {
        self.data@.map_values(|s: String| s@)
    }

    fn update(&mut self, data: &str) {
        let ghost before = self.data@;
        self.data.push(to_string(&to_chars(data)));
        assert(self.received() =~= before.map_values(|s: String| s@).push(data@));
    }

    fn id(&self) -> (id: &str) {
        self.id.as_str()
    }
}

/// A subscription: an observer, and whether it is still there.
pub struct Slot {
    pub observer: ConcreteObserver,
    pub alive: bool,
}

/// What a subscription holds.
pub ghost struct SlotView {
    pub id: Seq<char>,
    pub received: Seq<Seq<char>>,
    pub alive: bool,
}

impl View for Slot {
    type V = SlotView;

    open spec fn view(&self) -> SlotView {
        SlotView {
            id: self.observer.id_text(),
            received: self.observer.received(),
            alive: self.alive,
        }
    }
}

/// What the subscriptions of `slots` hold, in order.
pub open spec fn slot_views(slots: Seq<Slot>) -> Seq<SlotView> {
    slots.map_values(|s: Slot| s@)
}

/// The subscription `slot` after its observer was told `data`.
pub open spec fn told(slot: SlotView, data: Seq<char>) -> SlotView {
    SlotView { received: slot.received.push(data), ..slot }
}

/// The subscription `slot`, gone where its observer is called `id`.
pub open spec fn released(slot: SlotView, id: Seq<char>) -> SlotView {
    SlotView { alive: slot.alive && slot.id != id, ..slot }
}

/// Something that observers subscribe to. It does not keep its observers
/// alive: a subscription whose observer is gone is skipped, and cleared away
/// when the others are next told something.
pub struct Subject {
    observers: Vec<Slot>,
}

impl View for Subject {
    type V = Seq<SlotView>;

    closed spec fn view(&self) -> Seq<SlotView> {
        slot_views(self.observers@)
    }
}

impl Subject {
    /// A subject without subscriptions.
    pub fn new() -> (subject: Self)
        ensures
            subject@ == Seq::<SlotView>::empty(),
    {
        let subject = Subject { observers: Vec::new() };
        assert(subject@ =~= Seq::<SlotView>::empty());
        subject
    }

    /// Subscribes `observer`, behind the others.
    pub fn subscribe(&mut self, observer: ConcreteObserver)
        ensures
            final(self)@ == old(self)@.push(
                SlotView { id: observer.id_text(), received: observer.received(), alive: true },
            ),
    {
        let slot = Slot { observer, alive: true };
        self.observers.push(slot);
        assert(self@ =~= old(self)@.push(slot@));
    }

    /// Records that the observers called `observer_id` are gone. Their
    /// subscriptions stay until they are cleared away.
    pub fn release(&mut self, observer_id: &str)
        ensures
            final(self)@ == old(self)@.map_values(|s: SlotView| released(s, observer_id@)),
    {
        let mut i: usize = 0;
        while i < self.observers.len()
            invariant
                i <= self.observers.len(),
                self@.len() == old(self)@.len(),
                forall|k: int| 0 <= k < i ==> self@[k] == released(old(self)@[k], observer_id@),
                forall|k: int| i <= k < self@.len() ==> self@[k] == old(self)@[k],
            decreases self.observers.len() - i,
        {
            let ghost before = self.observers@;
            assert(self@[i as int] == before[i as int]@);
            if same_str(self.observers[i].observer.id(), observer_id) {
                self.observers[i].alive = false;
            }
            proof {
                assert(forall|k: int|
                    0 <= k < before.len() && k != i ==> self.observers@[k] == before[k]);
                assert forall|k: int| 0 <= k < i + 1 implies self@[k] == released(
                    old(self)@[k],
                    observer_id@,
                ) by {
                    assert(self@[k] == self.observers@[k]@);
                    assert(slot_views(before)[k] == before[k]@);
                }
                assert forall|k: int| i + 1 <= k < self@.len() implies self@[k] == old(self)@[k] by {
                    assert(self@[k] == self.observers@[k]@);
                    assert(slot_views(before)[k] == before[k]@);
                }
            }
            i = i + 1;
        }
        assert(self@ =~= old(self)@.map_values(|s: SlotView| released(s, observer_id@)));
    }

    /// Ends the subscriptions of the observers called `observer_id`, and
    /// clears away those whose observer is gone.
    pub fn unsubscribe(&mut self, observer_id: &str)
        ensures
            final(self)@ == old(self)@.filter(|s: SlotView| s.alive && s.id != observer_id@),
    {
        let ghost keep = |s: SlotView| s.alive && s.id != observer_id@;
        let ghost all = self@;
        let mut i: usize = 0;
        let ghost mut seen: int = 0;
        proof {
            reveal(Seq::filter);
            assert(all.take(0) =~= Seq::<SlotView>::empty());
            assert(self@ =~= all.take(0).filter(keep) + all.skip(0));
        }
        while i < self.observers.len()
            invariant
                0 <= seen <= all.len(),
                i <= self.observers.len(),
                i == all.take(seen).filter(keep).len(),
                keep == |s: SlotView| s.alive && s.id != observer_id@,
                self@ == all.take(seen).filter(keep) + all.skip(seen),
            decreases self.observers.len() - i, all.len() - seen,
        {
            let ghost before = self.observers@;
            proof {
                reveal(Seq::filter);
                assert(all.take(seen + 1).drop_last() =~= all.take(seen));
                assert(all.take(seen + 1).last() == all[seen]);
                assert(self@[i as int] == all.skip(seen)[0]);
                assert(self@[i as int] == before[i as int]@);
            }
            let stays: bool = self.observers[i].alive && !same_str(
                self.observers[i].observer.id(),
                observer_id,
            );
            if stays {
                proof {
                    assert(self@ =~= all.take(seen + 1).filter(keep) + all.skip(seen + 1));
                    seen = seen + 1;
                }
                i = i + 1;
            } else {
                self.observers.remove(i);
                proof {
                    assert(slot_views(before.remove(i as int)) =~= slot_views(before).remove(
                        i as int,
                    ));
                    assert(self@ =~= all.take(seen + 1).filter(keep) + all.skip(seen + 1));
                    seen = seen + 1;
                }
            }
        }
        proof {
            assert(all.skip(seen).len() == 0);
            assert(seen == all.len());
            assert(all.take(seen) =~= all);
            assert(self@ =~= all.filter(keep));
        }
    }

    /// Tells every observer that is still there `data`, in the order of the
    /// subscriptions, and clears away the subscriptions of those that are
    /// gone.
    pub fn notify(&mut self, data: &str)
        ensures
            final(self)@ == old(self)@.filter(|s: SlotView| s.alive).map_values(
                |s: SlotView| told(s, data@),
            ),
    {
        let ghost keep = |s: SlotView| s.alive;
        let ghost tell = |s: SlotView| told(s, data@);
        let ghost all = self@;
        let mut i: usize = 0;
        let ghost mut seen: int = 0;
        proof {
            reveal(Seq::filter);
            assert(all.take(0) =~= Seq::<SlotView>::empty());
            assert(self@ =~= all.take(0).filter(keep).map_values(tell) + all.skip(0));
        }
        while i < self.observers.len()
            invariant
                0 <= seen <= all.len(),
                i <= self.observers.len(),
                i == all.take(seen).filter(keep).len(),
                keep == |s: SlotView| s.alive,
                tell == |s: SlotView| told(s, data@),
                self@ == all.take(seen).filter(keep).map_values(tell) + all.skip(seen),
            decreases self.observers.len() - i, all.len() - seen,
        {
            let ghost before = self.observers@;
            proof {
                reveal(Seq::filter);
                assert(all.take(seen + 1).drop_last() =~= all.take(seen));
                assert(all.take(seen + 1).last() == all[seen]);
                assert(self@[i as int] == all.skip(seen)[0]);
                assert(self@[i as int] == before[i as int]@);
            }
            if self.observers[i].alive {
                self.observers[i].observer.update(data);
                proof {
                    assert(forall|k: int|
                        0 <= k < before.len() && k != i ==> self.observers@[k] == before[k]);
                    assert(self.observers@[i as int]@ == told(all[seen], data@));
                    let kept = all.take(seen).filter(keep);
                    let kept_now = all.take(seen + 1).filter(keep);
                    let target = kept_now.map_values(tell) + all.skip(seen + 1);
                    let earlier = slot_views(before);
                    assert(kept_now == kept.push(all[seen]));
                    assert(earlier == kept.map_values(tell) + all.skip(seen));
                    assert(self.observers@.len() == before.len());
                    assert(self@.len() == before.len());
                    assert(earlier.len() == before.len());
                    assert(kept.map_values(tell).len() == i);
                    assert(kept_now.map_values(tell).len() == i + 1);
                    assert(all.skip(seen).len() == all.len() - seen);
                    assert(all.skip(seen + 1).len() == all.len() - seen - 1);
                    assert(self@.len() == target.len());
                    assert forall|k: int| 0 <= k < self@.len() implies self@[k] == target[k] by {
                        assert(self@[k] == self.observers@[k]@);
                        assert(earlier[k] == before[k]@);
                        if k < i {
                            assert(target[k] == tell(kept_now[k]));
                            assert(kept_now[k] == kept[k]);
                            assert(earlier[k] == tell(kept[k]));
                        } else if k == i {
                            assert(target[k] == tell(kept_now[k]));
                            assert(kept_now[k] == all[seen]);
                        } else {
                            assert(target[k] == all.skip(seen + 1)[k - i - 1]);
                            assert(earlier[k] == all.skip(seen)[k - i]);
                        }
                    }
                    assert(self@ =~= all.take(seen + 1).filter(keep).map_values(tell) + all.skip(
                        seen + 1,
                    ));
                    seen = seen + 1;
                }
                i = i + 1;
            } else {
                self.observers.remove(i);
                proof {
                    assert(slot_views(before.remove(i as int)) =~= slot_views(before).remove(
                        i as int,
                    ));
                    assert(self@ =~= all.take(seen + 1).filter(keep).map_values(tell) + all.skip(
                        seen + 1,
                    ));
                    seen = seen + 1;
                }
            }
        }
        proof {
            assert(all.skip(seen).len() == 0);
            assert(seen == all.len());
            assert(all.take(seen) =~= all);
            assert(self@ =~= all.filter(keep).map_values(tell));
        }
    }

    /// The number of subscriptions whose observer is still there.
    pub fn observer_count(&self) -> (count: usize)
        ensures
            count == self@.filter(|s: SlotView| s.alive).len(),
    {
        let ghost keep = |s: SlotView| s.alive;
        let mut count: usize = 0;
        let mut i: usize = 0;
        proof {
            reveal(Seq::filter);
            assert(self@.take(0) =~= Seq::<SlotView>::empty());
        }
        while i < self.observers.len()
            invariant
                i <= self.observers.len(),
                count <= i,
                keep == |s: SlotView| s.alive,
                count == self@.take(i as int).filter(keep).len(),
            decreases self.observers.len() - i,
        {
            proof {
                reveal(Seq::filter);
                assert(self@.take(i + 1).drop_last() =~= self@.take(i as int));
                assert(self@.take(i + 1).last() == self.observers@[i as int]@);
            }
            if self.observers[i].alive {
                count = count + 1;
            }
            i = i + 1;
        }
        assert(self@.take(self@.len() as int) =~= self@);
        count
    }

    /// The number of subscriptions, whether their observer is there or gone.
    pub fn subscription_count(&self) -> (count: usize)
        ensures
            count == self@.len(),
    {
        self.observers.len()
    }

    /// The subscriptions, in order.
    pub fn subscriptions(&self) -> (slots: &Vec<Slot>)
        ensures
            slot_views(slots@) == self@,
    {
        &self.observers
    }
}

/// A node of a graph, with the places of its neighbours in the graph's
/// arena.
#[derive(Debug)]
pub struct GraphNode {
    pub id: String,
    pub neighbors: Vec<usize>,
}

/// What a node of a graph holds.
pub ghost struct NodeView {
    pub id: Seq<char>,
    pub neighbors: Seq<usize>,
}

impl View for GraphNode {
    type V = NodeView;

    open spec fn view(&self) -> NodeView {
        NodeView { id: self.id@, neighbors: self.neighbors@ }
    }
}

/// What the nodes of `nodes` hold, in order.
pub open spec fn node_views(nodes: Seq<GraphNode>) -> Seq<NodeView> {
    nodes.map_values(|n: GraphNode| n@)
}

/// Whether every neighbour that a node of `nodes` names lies in `nodes`.
pub open spec fn neighbors_exist(nodes: Seq<NodeView>) -> bool {
    forall|i: int, k: int|
        0 <= i < nodes.len() && 0 <= k < nodes[i].neighbors.len() ==> (
        #[trigger] nodes[i].neighbors[k]) < nodes.len()
}

/// The node `node` with one more neighbour.
pub open spec fn with_neighbor(node: NodeView, neighbor: usize) -> NodeView {
    NodeView { neighbors: node.neighbors.push(neighbor), ..node }
}

/// The nodes after an edge was laid between the nodes at `from` and `to`:
/// each names the other as its latest neighbour.
pub open spec fn with_edge(nodes: Seq<NodeView>, from: int, to: int) -> Seq<NodeView> {
    let half = nodes.update(from, with_neighbor(nodes[from], to as usize));
    half.update(to, with_neighbor(half[to], from as usize))
}

/// An undirected graph whose nodes lie in an arena.
pub struct Graph {
    nodes: Vec<GraphNode>,
}

impl View for Graph {
    type V = Seq<NodeView>;

    closed spec fn view(&self) -> Seq<NodeView> {
        node_views(self.nodes@)
    }
}

impl Graph {
    #[verifier::type_invariant]
    spec fn closed_under_neighbors(&self) -> bool {
        neighbors_exist(node_views(self.nodes@))
    }

    /// A graph without nodes.
    pub fn new() -> (graph: Self)
        ensures
            graph@ == Seq::<NodeView>::empty(),
    {
        let graph = Graph { nodes: Vec::new() };
        assert(graph@ =~= Seq::<NodeView>::empty());
        graph
    }

    /// Adds a node without neighbours, and returns its place.
    pub fn add_node(&mut self, id: String) -> (at: usize)
        ensures
            at == old(self)@.len(),
            final(self)@ == old(self)@.push(NodeView { id: id@, neighbors: Seq::empty() }),
    {
        proof {
            use_type_invariant(&*self);
        }
        let mut nodes: Vec<GraphNode> = Vec::new();
        assert(node_views(nodes@) =~= Seq::<NodeView>::empty());
        core::mem::swap(&mut self.nodes, &mut nodes);
        let ghost before = nodes@;
        let at: usize = nodes.len();
        let node = GraphNode { id, neighbors: Vec::new() };
        nodes.push(node);
        proof {
            assert(node_views(nodes@) =~= node_views(before).push(node@));
            assert forall|i: int, k: int|
                0 <= i < nodes@.len() && 0 <= k < node_views(nodes@)[i].neighbors.len() implies (
            #[trigger] node_views(nodes@)[i].neighbors[k]) < nodes@.len() by {
                assert(i < before.len());
                assert(node_views(before)[i].neighbors[k] < before.len());
            }
        }
        core::mem::swap(&mut self.nodes, &mut nodes);
        at
    }

    /// Lays an edge between the nodes at `from` and `to`. Nothing happens,
    /// and `false` comes back, where the graph lacks one of them.
    pub fn add_edge(&mut self, from: usize, to: usize) -> (laid: bool)
        ensures
            laid == (from < old(self)@.len() && to < old(self)@.len()),
            final(self)@ == if laid {
                with_edge(old(self)@, from as int, to as int)
            } else {
                old(self)@
            },
    {
        proof {
            use_type_invariant(&*self);
        }
        if from >= self.nodes.len() || to >= self.nodes.len() {
            return false;
        }
        let mut nodes: Vec<GraphNode> = Vec::new();
        assert(node_views(nodes@) =~= Seq::<NodeView>::empty());
        core::mem::swap(&mut self.nodes, &mut nodes);
        let ghost before = nodes@;
        nodes[from].neighbors.push(to);
        let ghost half = nodes@;
        nodes[to].neighbors.push(from);
        proof {
            assert(half[from as int].id == before[from as int].id);
            assert(nodes@[to as int].id == half[to as int].id);
            assert(node_views(half) =~= node_views(before).update(
                from as int,
                with_neighbor(node_views(before)[from as int], to),
            ));
            assert(node_views(nodes@) =~= node_views(half).update(
                to as int,
                with_neighbor(node_views(half)[to as int], from),
            ));
            assert(node_views(nodes@) == with_edge(node_views(before), from as int, to as int));
            assert forall|i: int, k: int|
                0 <= i < nodes@.len() && 0 <= k < node_views(nodes@)[i].neighbors.len() implies (
            #[trigger] node_views(nodes@)[i].neighbors[k]) < nodes@.len() by {
                let was = node_views(before)[i].neighbors;
                if k < was.len() {
                    assert(was[k] < before.len());
                    assert(node_views(half)[i].neighbors[k] == was[k]);
                }
            }
        }
        core::mem::swap(&mut self.nodes, &mut nodes);
        true
    }

    /// The number of neighbours of the node at `node`.
    pub fn neighbor_count(&self, node: usize) -> (r: Option<usize>)
        ensures
            r == if node < self@.len() {
                Some(self@[node as int].neighbors.len() as usize)
            } else {
                None
            },
    {
        if node < self.nodes.len() {
            Some(self.nodes[node].neighbors.len())
        } else {
            None
        }
    }

    /// The names of the neighbours of the node at `node`, oldest first.
    pub fn get_neighbors(&self, node: usize) -> (r: Option<Vec<String>>)
        ensures
            match r {
                Some(names) => node < self@.len() && names@.len() == self@[node as int].neighbors.len()
                    && forall|k: int|
                    0 <= k < names@.len() ==> (#[trigger] names@[k])@ == self@[self@[node as int].neighbors[k] as int].id,
                None => node >= self@.len(),
            },
    {
        proof {
            use_type_invariant(self);
        }
        if node >= self.nodes.len() {
            return None;
        }
        let mut names: Vec<String> = Vec::new();
        let mut k: usize = 0;
        while k < self.nodes[node].neighbors.len()
            invariant
                node < self.nodes.len(),
                neighbors_exist(node_views(self.nodes@)),
                k <= self.nodes@[node as int].neighbors.len(),
                names@.len() == k,
                forall|j: int|
                    0 <= j < k ==> (#[trigger] names@[j])@ == self.nodes@[self.nodes@[node as int].neighbors[j] as int].id@,
            decreases self.nodes@[node as int].neighbors.len() - k,
        {
            let neighbor: usize = self.nodes[node].neighbors[k];
            assert(node_views(self.nodes@)[node as int].neighbors[k as int] < self.nodes@.len());
            names.push(self.nodes[neighbor].id.clone());
            k = k + 1;
        }
        assert(node_views(self.nodes@)[node as int] == self.nodes@[node as int]@);
        assert forall|j: int| 0 <= j < names@.len() implies (#[trigger] names@[j])@
            == self@[self@[node as int].neighbors[j] as int].id by {
            let n = self.nodes@[node as int].neighbors[j];
            assert(node_views(self.nodes@)[node as int].neighbors[j] < self.nodes@.len());
            assert(node_views(self.nodes@)[n as int] == self.nodes@[n as int]@);
        }
        Some(names)
    }
}

} // verus!
