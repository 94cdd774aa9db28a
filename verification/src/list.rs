use vstd::prelude::*;

verus! {

/// A node of an intrusive doubly linked list. The links are addresses of
/// other nodes; 0 is the null link.
#[derive(Clone, Copy)]
pub struct ListHead {
    pub next: usize,
    pub prev: usize,
}

impl ListHead {
    /// Links the node, which lives at `self_addr`, to itself in both
    /// directions: the one-node circular list.
    pub fn init(&mut self, self_addr: usize)
        ensures
            final(self).next == self_addr,
            final(self).prev == self_addr,
    {
        self.prev = self_addr;
        self.next = self_addr;
    }

    /// A node with null links.
    pub fn empty() -> (l: Self)
        ensures
            l.next == 0,
            l.prev == 0,
    {
        ListHead { next: 0, prev: 0 }
    }

    /// The list headed by this node, which lives at `self_addr`, is empty:
    /// its next link leads back to itself.
    pub open spec fn spec_is_empty(&self, self_addr: usize) -> bool {
        self.next == self_addr
    }

    /// Whether the list headed by this node, which lives at `self_addr`,
    /// is empty: its next link leads back to itself.
    pub fn is_empty(&self, self_addr: usize) -> (b: bool)
        ensures
            b == self.spec_is_empty(self_addr),
    {
        self.next == self_addr
    }

    /// Unlinks the node, which lives at `self_addr`, leaving it linked to
    /// itself. Both links must be set: the node is then left as a one-node
    /// list without touching its neighbours.
    pub fn delete(&mut self, self_addr: usize)
        requires
            old(self).prev != 0,
            old(self).next != 0,
        ensures
            final(self).prev == self_addr,
            final(self).next == self_addr,
    {
        self.prev = self_addr;
        self.next = self_addr;
    }

    /// Puts this node, which lives at `self_addr`, right after `head`,
    /// which lives at `head_addr`: the node points back at `head` and on to
    /// `head`'s old successor, and `head` points at the node. The old
    /// successor's back link is not touched.
    pub fn head_insert(&mut self, self_addr: usize, head: &mut ListHead, head_addr: usize)
        ensures
            final(self).prev == head_addr,
            final(self).next == old(head).next,
            final(head).next == self_addr,
            final(head).prev == old(head).prev,
    {
        self.prev = head_addr;
        self.next = head.next;
        head.next = self_addr;
    }

    /// Puts the node `node` at the tail of the circular list headed by
    /// `head`, the nodes being held in `nodes` and linked by their indices:
    /// the old tail (the head's back link) points on to the node, the node
    /// points back at the old tail and on to the head, and the head points
    /// back at the node.  Every other node is left as it was.
    pub fn tail_insert(nodes: &mut Vec<ListHead>, node: usize, head: usize)
        requires
            node < old(nodes)@.len(),
            head < old(nodes)@.len(),
            node != head,
            old(nodes)@[head as int].prev < old(nodes)@.len(),
        ensures
            ({
                let tail = old(nodes)@[head as int].prev as int;
                &&& final(nodes)@.len() == old(nodes)@.len()
                &&& final(nodes)@[node as int] == ListHead { next: head, prev: tail as usize }
                &&& final(nodes)@[head as int].prev == node
                &&& final(nodes)@[head as int].next == if tail == head { node } else { old(nodes)@[head as int].next }
                &&& tail != head && tail != node ==> final(nodes)@[tail] == ListHead { next: node, prev: old(nodes)@[tail].prev }
                &&& forall|i: int| 0 <= i < old(nodes)@.len() && i != node && i != head && i != tail
                        ==> #[trigger] final(nodes)@[i] == old(nodes)@[i]
            }),
    {
        let tail = nodes[head].prev;
        let mut t = nodes[tail];
        t.next = node;
        nodes.set(tail, t);
        let mut n = nodes[node];
        n.prev = tail;
        nodes.set(node, n);
        let mut h = nodes[head];
        h.prev = node;
        nodes.set(head, h);
        let mut n2 = nodes[node];
        n2.next = head;
        nodes.set(node, n2);
    }
}

/// A node linked to itself (as `init` and `delete` leave it) heads an
/// empty list; a node with null links (as `empty` makes it) does not, at
/// any address a node can have (a node's address is never 0).
pub proof fn lemma_is_empty_after_init(l: ListHead, addr: usize)
    ensures
        l.next == addr && l.prev == addr ==> l.spec_is_empty(addr),
        l.next == 0 && l.prev == 0 && addr != 0 ==> !l.spec_is_empty(addr),
{
}

} // verus!
