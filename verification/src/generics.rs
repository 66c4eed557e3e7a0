//! Priority queues over any ordered type.

use core::cmp::Ordering;
use std::fmt::Debug;
use vstd::prelude::*;
use vstd::std_specs::cmp::PartialOrdIs;
use vstd::std_specs::cmp::PartialOrdSpec;

verus! {

/// Whether comparing two values of `T` gives what the specification of its
/// order says.
pub open spec fn order_is_known<T: PartialOrd>() -> bool {
    T::obeys_partial_cmp_spec()
}

/// Whether `T` is ordered as a total order must be, in every respect that
/// is specified.
pub open spec fn order_is_lawful<T: Ord>() -> bool {
    vstd::laws_cmp::obeys_cmp::<T>()
}

/// Whether `a` is less than or equal to `b` in the order of `T`.
pub open spec fn at_most<T: PartialOrd>(a: T, b: T) -> bool {
    a.is_le(&b)
}

/// Whether no entry of `s` is followed by one that it is not at most.
pub open spec fn ascending<T: PartialOrd>(s: Seq<T>) -> bool {
    forall|i: int, j: int| 0 <= i < j < s.len() ==> at_most(s[i], s[j])
}

/// Whether `at` is where `item` goes in `s`: behind every entry that is at
/// most `item`, up to the first that is not.
pub open spec fn is_place_of<T: PartialOrd>(s: Seq<T>, item: T, at: int) -> bool {
    &&& 0 <= at <= s.len()
    &&& forall|i: int| 0 <= i < at ==> at_most(s[i], item)
    &&& at < s.len() ==> !at_most(s[at], item)
}

/// Whether `after` is `before` with `item` put in somewhere.
pub open spec fn is_with<T>(after: Seq<T>, before: Seq<T>, item: T) -> bool {
    exists|at: int| 0 <= at <= before.len() && after == #[trigger] before.insert(at, item)
}

/// A queue that hands out its greatest item first.
#[derive(Debug)]
pub struct PriorityQueue<T> where T: PartialOrd + Debug {
    items: Vec<T>,
}

impl<T> View for PriorityQueue<T> where T: PartialOrd + Debug {
    type V = Seq<T>;

    /// The items, the one that leaves next at the end.
    closed spec fn view(&self) -> Seq<T> {
        self.items@
    }
}

impl<T> PriorityQueue<T> where T: PartialOrd + Debug {
    pub fn new() -> (queue: Self)
        ensures
            queue@ == Seq::<T>::empty(),
    {
        PriorityQueue { items: Vec::new() }
    }

    /// Puts `item` behind the items that are at most `item`, and before the
    /// first that is not.
    pub fn enqueue(&mut self, item: T)
        ensures
            is_with(final(self)@, old(self)@, item),
            exists|at: int|
                0 <= at <= old(self)@.len() && final(self)@ == old(self)@.insert(at, item) && (
                order_is_known::<T>() ==> is_place_of(old(self)@, item, at)),
    {
        let mut at: usize = 0;
        while at < self.items.len() && self.items[at] <= item
            invariant
                at <= self.items.len(),
                self.items@ == old(self).items@,
                order_is_known::<T>() ==> forall|i: int|
                    0 <= i < at ==> at_most(self.items@[i], item),
            decreases self.items.len() - at,
        {
            at = at + 1;
        }
        self.items.insert(at, item);
        assert(0 <= at <= old(self)@.len() && self@ == old(self)@.insert(at as int, item) && (
        order_is_known::<T>() ==> is_place_of(old(self)@, item, at as int)));
    }

    /// Takes out the item at the end.
    pub fn dequeue(&mut self) -> (r: Option<T>)
        ensures
            match r {
                Some(item) => old(self)@.len() > 0 && item == old(self)@.last() && final(self)@
                    == old(self)@.drop_last(),
                None => old(self)@.len() == 0 && final(self)@ == old(self)@,
            },
    {
        self.items.pop()
    }

    /// The item that leaves next.
    pub fn peek(&self) -> (r: Option<&T>)
        ensures
            match r {
                Some(item) => self@.len() > 0 && *item == self@.last(),
                None => self@.len() == 0,
            },
    {
        let n: usize = self.items.len();
        if n == 0 {
            None
        } else {
            Some(&self.items[n - 1])
        }
    }

    pub fn len(&self) -> (n: usize)
        ensures
            n == self@.len(),
    {
        self.items.len()
    }

    pub fn is_empty(&self) -> (b: bool)
        ensures
            b == (self@.len() == 0),
    {
        self.items.len() == 0
    }
}

/// Order law: in an order that is transitive, putting an item at its place
/// in an ascending sequence gives an ascending sequence, where the first
/// item that is not at most the new one is at least the new one.
pub proof fn law_placing_keeps_ascending<T: PartialOrd>(s: Seq<T>, item: T, at: int)
    requires
        ascending(s),
        is_place_of(s, item, at),
        forall|x: T, y: T, z: T|
            #![trigger at_most(x, y), at_most(y, z)]
            at_most(x, y) && at_most(y, z) ==> at_most(x, z),
        at < s.len() ==> at_most(item, s[at]),
    ensures
        ascending(s.insert(at, item)),
{
    let t = s.insert(at, item);
    assert forall|i: int, j: int| 0 <= i < j < t.len() implies at_most(t[i], t[j]) by {
        if j == at {
            assert(t[i] == s[i]);
        } else if i == at {
            assert(t[j] == s[j - 1]);
            if j - 1 > at {
                assert(at_most(item, s[at]));
                assert(at_most(s[at], s[j - 1]));
            }
        } else {
            let i0 = if i < at { i } else { i - 1 };
            let j0 = if j < at { j } else { j - 1 };
            assert(t[i] == s[i0] && t[j] == s[j0]);
        }
    }
}

/// Items that carry a priority.
pub trait Prioritized {
    type Priority: Ord;

    /// The item's priority.
    spec fn priority_value(&self) -> Self::Priority;

    fn priority(&self) -> (p: Self::Priority)
        ensures
            p == self.priority_value(),
    ;
}

/// The priorities of the items of `s`, in order.
pub open spec fn priorities<T: Prioritized>(s: Seq<T>) -> Seq<T::Priority> {
    s.map_values(|item: T| item.priority_value())
}

/// A queue that hands out an item of the greatest priority first.
pub struct AdvancedQueue<T> where T: Prioritized + Debug {
    items: Vec<T>,
}

impl<T> View for AdvancedQueue<T> where T: Prioritized + Debug {
    type V = Seq<T>;

    /// The items, the one that leaves next at the end.
    closed spec fn view(&self) -> Seq<T> {
        self.items@
    }
}

/// `slice::binary_search_by_key`, with each item's priority as its key. Where
/// the priorities are ordered lawfully and stand in ascending order, the
/// index that comes back, found or not, is one at which `priority` can be
/// inserted so that they still do; a found index is that of an item.
#[verifier::external_body]
fn search_by_priority<T: Prioritized>(items: &Vec<T>, priority: &T::Priority) -> (r: Result<
    usize,
    usize,
>)
    ensures
        order_is_lawful::<T::Priority>() && ascending(priorities(items@)) ==> match r {
            Ok(at) => at < items@.len() && ascending(priorities(items@).insert(at as int, *priority)),
            Err(at) => at <= items@.len() && ascending(
                priorities(items@).insert(at as int, *priority),
            ),
        },
{
    items.binary_search_by_key(priority, |item| item.priority())
}

impl<T> AdvancedQueue<T> where T: Prioritized + Debug {
    pub fn new() -> (queue: Self)
        ensures
            queue@ == Seq::<T>::empty(),
    {
        AdvancedQueue { items: Vec::new() }
    }

    /// Puts `item` where a binary search for its priority points: somewhere
    /// among the items, and, where the priorities are ordered lawfully and
    /// stood in ascending order, so that they still do.
    pub fn enqueue(&mut self, item: T)
        ensures
            is_with(final(self)@, old(self)@, item),
            order_is_lawful::<T::Priority>() && ascending(priorities(old(self)@)) ==> ascending(
                priorities(final(self)@),
            ),
    {
        let priority: T::Priority = item.priority();
        let found: usize = match search_by_priority(&self.items, &priority) {
            Ok(at) => at,
            Err(at) => at,
        };
        let at: usize = if found > self.items.len() {
            self.items.len()
        } else {
            found
        };
        self.items.insert(at, item);
        assert(self@ == old(self)@.insert(at as int, item));
        assert(priorities(self@) =~= priorities(old(self)@).insert(at as int, priority));
    }

    /// Takes out the item at the end.
    pub fn dequeue(&mut self) -> (r: Option<T>)
        ensures
            match r {
                Some(item) => old(self)@.len() > 0 && item == old(self)@.last() && final(self)@
                    == old(self)@.drop_last(),
                None => old(self)@.len() == 0 && final(self)@ == old(self)@,
            },
    {
        self.items.pop()
    }
}

/// A piece of work and how urgent it is.
#[derive(Debug, Eq, PartialEq)]
pub struct Task {
    pub name: String,
    pub urgency: u32,
}

impl Prioritized for Task {
    type Priority = u32;

    open spec fn priority_value(&self) -> u32 {
        self.urgency
    }

    fn priority(&self) -> (p: u32) {
        self.urgency
    }
}

/// The order of two urgencies.
pub open spec fn order_of(a: u32, b: u32) -> Ordering {
    if a < b {
        Ordering::Less
    } else if a == b {
        Ordering::Equal
    } else {
        Ordering::Greater
    }
}

impl PartialOrd for Task {
    /// Tasks are ordered by urgency alone.
    fn partial_cmp(&self, other: &Self) -> (r: Option<Ordering>) {
        if self.urgency < other.urgency {
            Some(Ordering::Less)
        } else if self.urgency == other.urgency {
            Some(Ordering::Equal)
        } else {
            Some(Ordering::Greater)
        }
    }
}

impl vstd::std_specs::cmp::PartialOrdSpecImpl for Task {
    open spec fn obeys_partial_cmp_spec() -> bool {
        true
    }

    open spec fn partial_cmp_spec(&self, other: &Self) -> Option<Ordering> {
        Some(order_of(self.urgency, other.urgency))
    }
}

/// What a queue must offer.
pub trait QueueOperations<T> {
    /// The items, the one that leaves next at the end.
    spec fn contents(&self) -> Seq<T>;

    fn enqueue(&mut self, item: T)
        ensures
            is_with(final(self).contents(), old(self).contents(), item),
    ;

    fn dequeue(&mut self) -> (r: Option<T>)
        ensures
            match r {
                Some(item) => old(self).contents().len() > 0 && item == old(
                    self,
                ).contents().last() && final(self).contents() == old(self).contents().drop_last(),
                None => old(self).contents().len() == 0 && final(self).contents() == old(
                    self,
                ).contents(),
            },
    ;

    fn len(&self) -> (n: usize)
        ensures
            n == self.contents().len(),
    ;
}

impl<T> QueueOperations<T> for PriorityQueue<T> where T: PartialOrd + Debug {
    open spec fn contents(&self) -> Seq<T> {
        self@
    }

    fn enqueue(&mut self, item: T) {
        PriorityQueue::enqueue(self, item);
    }

    fn dequeue(&mut self) -> (r: Option<T>) {
        PriorityQueue::dequeue(self)
    }

    fn len(&self) -> (n: usize) {
        PriorityQueue::len(self)
    }
}

/// The number of items that leave a queue of `len` items when up to
/// `max_items` are taken.
pub open spec fn taken(len: nat, max_items: usize) -> nat {
    if max_items <= len {
        max_items as nat
    } else {
        len
    }
}

/// Takes up to `max_items` items out of `queue`, in the order in which they
/// leave it.
pub fn process_queue<T, Q>(queue: &mut Q, max_items: usize) -> (processed: Vec<T>) where
    T: Debug + Clone,
    Q: QueueOperations<T>,

    ensures
        processed@ == old(queue).contents().skip(
            old(queue).contents().len() - taken(old(queue).contents().len(), max_items),
        ).reverse(),
        final(queue).contents() == old(queue).contents().take(
            old(queue).contents().len() - taken(old(queue).contents().len(), max_items),
        ),
{
    let ghost all = queue.contents();
    let mut processed: Vec<T> = Vec::new();
    let mut i: usize = 0;
    assert(queue.contents() =~= all.take(all.len() - 0));
    assert(processed@ =~= all.skip(all.len() - 0).reverse());
    while i < max_items
        invariant_except_break
            i <= max_items,
            i <= all.len(),
            processed@ == all.skip(all.len() - i).reverse(),
            queue.contents() == all.take(all.len() - i),
        ensures
            processed@ == all.skip(all.len() - taken(all.len(), max_items)).reverse(),
            queue.contents() == all.take(all.len() - taken(all.len(), max_items)),
        decreases max_items - i,
    {
        match queue.dequeue() {
            Some(item) => {
                processed.push(item);
                assert(queue.contents() =~= all.take(all.len() - (i + 1)));
                assert(processed@ =~= all.skip(all.len() - (i + 1)).reverse());
                i = i + 1;
            },
            None => {
                break;
            },
        }
    }
    processed
}

} // verus!
