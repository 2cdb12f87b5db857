use vstd::prelude::*;

verus! {

/// One element of the chain, with the arena positions of its neighbours.
struct Node<T> {
    val: T,
    prev: Option<usize>,
    next: Option<usize>,
}

impl<T> Node<T> {
    /// A node that holds `val` and is linked to nothing.
    fn new(val: T) -> (r: Self)
        ensures
            r.val == val,
            r.prev is None,
            r.next is None,
    {
        Node { val, prev: None, next: None }
    }
}

/// A doubly linked list. Its nodes are kept in `nodes`; `start` and `end`
/// are the arena positions of the first and last node of the chain.
pub struct LinkedList<T> {
    length: u32,
    start: Option<usize>,
    end: Option<usize>,
    nodes: Vec<Node<T>>,
    /// The arena positions of the nodes, in chain order.
    order: Ghost<Seq<usize>>,
}

impl<T> LinkedList<T> {
    /// The arena position of the node at chain position `k`, or `None`
    /// where `k` is outside the chain.
    closed spec fn link(&self, k: int) -> Option<usize> {
        if 0 <= k < self.order@.len() {
            Some(self.order@[k])
        } else {
            None
        }
    }

    /// The links of the node at chain position `k` name its neighbours.
    closed spec fn linked_at(&self, k: int) -> bool {
        let node = self.nodes@[self.order@[k] as int];
        &&& node.prev == self.link(k - 1)
        &&& node.next == self.link(k + 1)
    }

    /// The chain runs from `start` to `end` through every node of the arena
    /// once, and `length` counts its nodes.
    pub closed spec fn well_formed(&self) -> bool {
        let n = self.order@.len();
        &&& self.length as nat == n
        &&& self.nodes@.len() == n
        &&& self.start == self.link(0)
        &&& self.end == self.link(n - 1)
        &&& forall|k: int| 0 <= k < n ==> (#[trigger] self.order@[k]) < n
        &&& forall|j: int, k: int|
            0 <= j < n && 0 <= k < n && j != k ==> self.order@[j] != self.order@[k]
        &&& forall|k: int| 0 <= k < n ==> #[trigger] self.linked_at(k)
    }
}

impl<T> View for LinkedList<T> {
    type V = Seq<T>;

    /// The values of the list, from `start` to `end`.
    closed spec fn view(&self) -> Seq<T> {
        Seq::new(self.order@.len(), |k: int| self.nodes@[self.order@[k] as int].val)
    }
}

impl<T> LinkedList<T> {
    /// An empty list.
    pub fn new() -> (r: Self)
        ensures
            r.well_formed(),
            r@ == Seq::<T>::empty(),
    {
        LinkedList { length: 0, start: None, end: None, nodes: Vec::new(), order: Ghost(Seq::empty()) }
    }

    /// The number of elements.
    pub fn length(&self) -> (r: u32)
        requires
            self.well_formed(),
        ensures
            r as nat == self@.len(),
    {
        self.length
    }
}

impl<T> Default for LinkedList<T> {
    /// An empty list.
    fn default() -> (r: Self)
        ensures
            r.well_formed(),
            r@ == Seq::<T>::empty(),
    {
        Self::new()
    }
}

impl<T> LinkedList<T> {
    /// Appends `obj` at the end: the new node links back to the old `end`,
    /// which links forward to it, and becomes the new `end`.
    pub fn add(&mut self, obj: T)
        requires
            old(self).well_formed(),
            old(self)@.len() < u32::MAX,
        ensures
            final(self).well_formed(),
            final(self)@ == old(self)@.push(obj),
            final(self)@.len() == old(self)@.len() + 1,
    {
        let ghost pre = *self;
        let mut node = Node::new(obj);
        node.next = None;
        node.prev = self.end;
        let idx = self.nodes.len();
        self.nodes.push(node);
        match self.end {
            None => {
                self.start = Some(idx);
            },
            Some(e) => {
                self.nodes[e].next = Some(idx);
            },
        }
        self.end = Some(idx);
        self.length = self.length + 1;
        self.order = Ghost(pre.order@.push(idx));
        proof {
            let n = pre.order@.len() as int;
            assert forall|k: int| 0 <= k <= n implies #[trigger] self.linked_at(k) by {
                if k < n {
                    assert(pre.linked_at(k));
                }
            }
            assert(self@ =~= pre@.push(obj));
        }
    }

    /// The value `index` steps along the chain from the node `node`, found by
    /// walking forward; `None` where the chain ends first or `index` is negative.
    fn get_ith_node(&self, node: Option<usize>, index: i32, Ghost(pos): Ghost<int>) -> (r: Option<&T>)
        requires
            self.well_formed(),
            0 <= pos <= self@.len(),
            node == self.link(pos),
        ensures
            r == (if 0 <= index && pos + index < self@.len() {
                Some(&self@[pos + index])
            } else {
                None
            }),
    {
        if index < 0 {
            return None;
        }
        let mut cur = node;
        let mut remaining: i32 = index;
        let ghost mut p: int = pos;
        loop
            invariant
                self.well_formed(),
                0 <= pos <= p <= self@.len(),
                cur == self.link(p),
                0 <= remaining,
                remaining == index - (p - pos),
            decreases self@.len() - p,
        {
            match cur {
                None => {
                    return None;
                },
                Some(i) => {
                    proof {
                        assert(self.linked_at(p));
                    }
                    if remaining == 0 {
                        return Some(&self.nodes[i].val);
                    }
                    cur = self.nodes[i].next;
                    remaining = remaining - 1;
                    proof {
                        p = p + 1;
                    }
                },
            }
        }
    }

    /// The value at zero-based position `index`, or `None` where `index` is
    /// negative or not less than the length.
    pub fn get(&mut self, index: i32) -> (r: Option<&T>)
        requires
            old(self).well_formed(),
        ensures
            *final(self) == *old(self),
            r == (if 0 <= index < old(self)@.len() {
                Some(&old(self)@[index as int])
            } else {
                None
            }),
    {
        self.get_ith_node(self.start, index, Ghost(0))
    }

    /// References to the values, in order from `start` to `end`, gathered by
    /// following the forward links.
    pub fn values(&self) -> (r: Vec<&T>)
        requires
            self.well_formed(),
        ensures
            r@.len() == self@.len(),
            forall|i: int| 0 <= i < self@.len() ==> *#[trigger] r@[i] == self@[i],
    {
        let mut out: Vec<&T> = Vec::new();
        let mut cur = self.start;
        let ghost mut p: int = 0;
        loop
            invariant
                self.well_formed(),
                0 <= p <= self@.len(),
                cur == self.link(p),
                out@.len() == p,
                forall|i: int| 0 <= i < p ==> *#[trigger] out@[i] == self@[i],
            ensures
                p == self@.len(),
            decreases self@.len() - p,
        {
            match cur {
                None => {
                    break ;
                },
                Some(i) => {
                    proof {
                        assert(self.linked_at(p));
                    }
                    out.push(&self.nodes[i].val);
                    cur = self.nodes[i].next;
                    proof {
                        p = p + 1;
                    }
                },
            }
        }
        out
    }

    /// Reverses the order of the elements in place: walks the chain once from
    /// `start`, swapping the two links of each node, then swaps `start` and `end`.
    pub fn reverse(&mut self)
        requires
            old(self).well_formed(),
        ensures
            final(self).well_formed(),
            final(self)@ == old(self)@.reverse(),
            final(self)@.len() == old(self)@.len(),
            forall|i: int|
                0 <= i < old(self)@.len() ==> #[trigger] final(self)@[i] == old(self)@[old(self)@.len()
                    - 1 - i],
            old(self)@.len() <= 1 ==> final(self)@ == old(self)@,
    {
        if self.start.is_none() || self.length == 1 {
            proof {
                assert(self@ =~= old(self)@.reverse());
            }
            return;
        }
        let ghost pre = *self;
        let ghost order = self.order@;
        let ghost n = order.len();
        let ghost mut k: int = 0;
        let mut prev: Option<usize> = None;
        let mut cur: Option<usize> = self.start;
        loop
            invariant
                pre.well_formed(),
                n == order.len(),
                order == pre.order@,
                n >= 2,
                0 <= k <= n,
                self.length == pre.length,
                self.start == pre.start,
                self.order@ == order,
                self.nodes@.len() == n,
                cur == pre.link(k),
                prev == pre.link(k - 1),
                forall|a: int|
                    0 <= a < n ==> (#[trigger] self.nodes@[a]).val == pre.nodes@[a].val,
                forall|j: int|
                    0 <= j < k ==> {
                        let node = #[trigger] self.nodes@[order[j] as int];
                        node.next == pre.link(j - 1) && node.prev == pre.link(j + 1)
                    },
                forall|j: int|
                    k <= j < n ==> #[trigger] self.nodes@[order[j] as int] == pre.nodes@[order[j] as int],
            ensures
                k == n,
            decreases n - k,
        {
            match cur {
                None => {
                    break ;
                },
                Some(c) => {
                    proof {
                        assert(pre.linked_at(k));
                    }
                    let next = self.nodes[c].next;
                    self.nodes[c].next = prev;
                    self.nodes[c].prev = next;
                    prev = cur;
                    cur = next;
                    proof {
                        k = k + 1;
                    }
                },
            }
        }
        self.end = self.start;
        self.start = prev;
        self.order = Ghost(order.reverse());
        proof {
            assert forall|j: int| 0 <= j < n implies #[trigger] self.order@[j] == order[n - 1 - j] by {}
            assert forall|k2: int| 0 <= k2 < n implies #[trigger] self.linked_at(k2) by {
                assert(self.order@[k2] == order[n - 1 - k2]);
            }
            assert(self@ =~= pre@.reverse());
        }
    }
}

} // verus!
