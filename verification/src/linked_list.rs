//! A doubly linked list whose nodes live in an arena and are addressed by
//! handles.  Pushing returns a handle to the new node; the handle stays valid
//! until that node leaves the list, so a node can be unlinked from the middle
//! in constant time with `pinch`.  The slot of a node that left the list is
//! reused by a later push, so a handle kept after its node left may come to
//! address a newer node.

use vstd::prelude::*;

verus! {

/// Handle to a node of a `LinkedList`, as returned by `push_front` and
/// `push_back`.
#[derive(Clone, Copy, Debug, PartialEq, Eq, Structural)]
pub struct NodeHandle {
    index: usize,
}

/// One slot of the arena: the element while the node is in the list, and the
/// arena indices of its neighbours.
pub struct LinkedNode<T> {
    inner: Option<T>,
    next: Option<usize>,
    prev: Option<usize>,
}

/// A doubly linked list.
pub struct LinkedList<T> {
    nodes: Vec<LinkedNode<T>>,
    /// Arena slots that no node holds, reused by the next pushes.
    free: Vec<usize>,
    first: Option<usize>,
    last: Option<usize>,
    length: usize,
    /// Arena indices of the live nodes, from first to last.
    order: Ghost<Seq<usize>>,
}

/// The arena index that follows position `k` of `o`.
spec fn next_in(o: Seq<usize>, k: int) -> Option<usize> {
    if k + 1 < o.len() {
        Some(o[k + 1])
    } else {
        None
    }
}

/// The arena index that precedes position `k` of `o`.
spec fn prev_in(o: Seq<usize>, k: int) -> Option<usize> {
    if k > 0 {
        Some(o[k - 1])
    } else {
        None
    }
}

/// The handle that addresses arena slot `i`.
pub closed spec fn handle_of(i: usize) -> NodeHandle {
    NodeHandle { index: i }
}

/// Handle `h` moved by `by` arena slots.
pub closed spec fn shifted(h: NodeHandle, by: usize) -> NodeHandle {
    NodeHandle { index: h.index.wrapping_add(by) }
}

/// The link `x` of a slot of an arena of `len` slots, once the arena has
/// been moved behind `off` other slots.
spec fn moved_link(x: Option<usize>, off: usize, len: usize) -> Option<usize> {
    match x {
        Some(v) => if v < len {
            Some((v + off) as usize)
        } else {
            None
        },
        None => None,
    }
}

/// `node` is the slot `old` of an arena of `len` slots, moved behind `off`
/// other slots, with its links moved alike.
spec fn moved_links<T>(node: LinkedNode<T>, old: LinkedNode<T>, off: usize, len: usize) -> bool {
    node.next == moved_link(old.next, off, len) && node.prev == moved_link(old.prev, off, len)
}

impl<T> View for LinkedList<T> {
    type V = Seq<T>;

    closed spec fn view(&self) -> Seq<T> {
        Seq::new(self.order@.len(), |k: int| self.nodes@[self.order@[k] as int].inner->0)
    }
}

impl<T> LinkedList<T> {
    /// The handles of the nodes, from first to last.
    pub closed spec fn handles(&self) -> Seq<NodeHandle> {
        self.order@.map_values(|i: usize| handle_of(i))
    }

    /// The handle of the first node.
    pub open spec fn first_of(&self) -> Option<NodeHandle> {
        if self@.len() > 0 {
            Some(self.handles()[0])
        } else {
            None
        }
    }

    /// The handle of the last node.
    pub open spec fn last_of(&self) -> Option<NodeHandle> {
        if self@.len() > 0 {
            Some(self.handles()[self@.len() - 1])
        } else {
            None
        }
    }

    /// The handle of the node after the one that `h` addresses.
    pub open spec fn next_handle(&self, h: NodeHandle) -> Option<NodeHandle> {
        if self.handles().contains(h) && self.handles().index_of(h) + 1 < self@.len() {
            Some(self.handles()[self.handles().index_of(h) + 1])
        } else {
            None
        }
    }

    /// The handle of the node before the one that `h` addresses.
    pub open spec fn prev_handle(&self, h: NodeHandle) -> Option<NodeHandle> {
        if self.handles().contains(h) && self.handles().index_of(h) > 0 {
            Some(self.handles()[self.handles().index_of(h) - 1])
        } else {
            None
        }
    }

    /// Where following `n` next links from `h` leads.
    pub open spec fn walk_next(&self, h: Option<NodeHandle>, n: nat) -> Option<NodeHandle>
        decreases n,
    {
        if n == 0 {
            h
        } else {
            match self.walk_next(h, (n - 1) as nat) {
                Some(x) => self.next_handle(x),
                None => None,
            }
        }
    }

    /// Where following `n` previous links from `h` leads.
    pub open spec fn walk_prev(&self, h: Option<NodeHandle>, n: nat) -> Option<NodeHandle>
        decreases n,
    {
        if n == 0 {
            h
        } else {
            match self.walk_prev(h, (n - 1) as nat) {
                Some(x) => self.prev_handle(x),
                None => None,
            }
        }
    }

    spec fn live(&self, j: int) -> bool {
        exists|k: int| 0 <= k < self.order@.len() && self.order@[k] == j
    }

    /// Well-formedness: the links of the arena describe exactly `order`.
    pub closed spec fn wf(&self) -> bool {
        let o = self.order@;
        let n = self.nodes@;
        &&& self.length == o.len()
        &&& self.length + self.free@.len() <= n.len()
        &&& forall|k: int| 0 <= k < o.len() ==> (#[trigger] o[k]) < n.len()
        &&& forall|k: int, l: int|
            0 <= k < o.len() && 0 <= l < o.len() && k != l ==> #[trigger] o[k] != #[trigger] o[l]
        &&& forall|j: int| 0 <= j < n.len() ==> ((#[trigger] n[j]).inner is Some <==> self.live(j))
        &&& forall|k: int| 0 <= k < o.len() ==> (#[trigger] n[o[k] as int]).next == next_in(o, k)
        &&& forall|k: int| 0 <= k < o.len() ==> n[o[k] as int].prev == prev_in(o, k)
        &&& self.first == (if o.len() > 0 { Some(o[0]) } else { None::<usize> })
        &&& self.last == (if o.len() > 0 { Some(o[o.len() - 1]) } else { None::<usize> })
        &&& self.free@.no_duplicates()
        &&& forall|m: int| 0 <= m < self.free@.len() ==> (#[trigger] self.free@[m]) < n.len() && n[self.free@[m] as int].inner is None
    }

    /// A slot that no node of a well-formed list holds is not in its order.
    proof fn lemma_dead_slot(&self, idx: usize)
        requires
            !self.live(idx as int),
        ensures
            forall|k: int| 0 <= k < self.order@.len() ==> #[trigger] self.order@[k] != idx,
    {
        assert forall|k: int| 0 <= k < self.order@.len() implies #[trigger] self.order@[k] != idx by {
            if self.order@[k] == idx {
                assert(self.live(idx as int));
            }
        }
    }

    /// Puts `node` into a slot that no node holds: a freed one when there is
    /// one, else a new one at the end of the arena.
    fn place_node(&mut self, node: LinkedNode<T>) -> (idx: usize)
        requires
            old(self).wf(),
        ensures
            idx < final(self).nodes@.len(),
            !old(self).live(idx as int),
            old(self).nodes@.len() <= final(self).nodes@.len(),
            idx < old(self).nodes@.len() ==> final(self).nodes@ == old(self).nodes@.update(idx as int, node),
            idx >= old(self).nodes@.len() ==> final(self).nodes@ == old(self).nodes@.push(node),
            final(self).order == old(self).order,
            final(self).first == old(self).first,
            final(self).last == old(self).last,
            final(self).length == old(self).length,
            final(self).free@.no_duplicates(),
            idx < old(self).nodes@.len() ==> final(self).free@.len() + 1 == old(self).free@.len(),
            idx >= old(self).nodes@.len() ==> final(self).free@ == old(self).free@,
            forall|m: int| 0 <= m < final(self).free@.len() ==> (#[trigger] final(self).free@[m]) < old(self).nodes@.len()
                && final(self).free@[m] != idx && old(self).nodes@[final(self).free@[m] as int].inner is None,
    {
        match self.free.pop() {
            Some(idx) => {
                proof {
                    let f0 = old(self).free@;
                    assert(f0[f0.len() - 1] == idx);
                    assert(old(self).nodes@[idx as int].inner is None);
                    assert forall|m: int| 0 <= m < self.free@.len() implies (#[trigger] self.free@[m]) != idx by {
                        assert(self.free@[m] == f0[m]);
                    }
                    assert forall|m: int| 0 <= m < self.free@.len() implies (#[trigger] self.free@[m]) < old(self).nodes@.len() by {
                        assert(self.free@[m] == f0[m]);
                    }
                    assert forall|a: int, b: int| 0 <= a < b < self.free@.len() implies self.free@[a] != self.free@[b] by {
                        assert(self.free@[a] == f0[a] && self.free@[b] == f0[b]);
                    }
                }
                self.nodes.set(idx, node);
                idx
            },
            None => {
                let idx = self.nodes.len();
                self.nodes.push(node);
                idx
            },
        }
    }

    proof fn lemma_handles(&self)
        ensures
            self.handles().len() == self.order@.len(),
            forall|k: int| 0 <= k < self.order@.len() ==> #[trigger] self.handles()[k] == handle_of(self.order@[k]),
    {
    }

    /// Creates an empty list.
    pub fn new() -> (list: Self)
        ensures
            list.wf(),
            list@ == Seq::<T>::empty(),
            list.handles() == Seq::<NodeHandle>::empty(),
    {
        let list = LinkedList {
            nodes: Vec::new(),
            free: Vec::new(),
            first: None,
            last: None,
            length: 0,
            order: Ghost(Seq::empty()),
        };
        assert(list.handles() =~= Seq::<NodeHandle>::empty());
        assert(list@ =~= Seq::<T>::empty());
        list
    }

    /// The number of elements.
    pub fn len(&self) -> (n: usize)
        requires
            self.wf(),
        ensures
            n == self@.len(),
    {
        self.length
    }

    /// Inserts `data` before the first element and returns the new node's handle.
    pub fn push_front(&mut self, data: T) -> (h: NodeHandle)
        requires
            old(self).wf(),
        ensures
            final(self).wf(),
            final(self)@ == seq![data] + old(self)@,
            final(self).handles() == seq![h] + old(self).handles(),
            !old(self).handles().contains(h),
            (final(self)@, final(self).handles(), false) == call_effect(
                old(self)@,
                old(self).handles(),
                ListCall::PushFront(data, h),
            ),
    {
        let ghost o = self.order@;
        let ghost n0 = self.nodes@;
        let node = LinkedNode { inner: Some(data), next: self.first, prev: None };
        let idx = self.place_node(node);
        proof {
            old(self).lemma_dead_slot(idx);
        }
        match self.first {
            Some(f) => {
                self.nodes[f].prev = Some(idx);
            },
            None => {
                self.last = Some(idx);
            },
        }
        self.first = Some(idx);
        assert(self.length < self.nodes.len());
        self.length = self.length + 1;
        proof {
            let no = seq![idx] + o;
            self.order = Ghost(no);
            let n = self.nodes@;
            assert forall|k: int| 0 <= k < no.len() implies (#[trigger] no[k]) < n.len() by {
                if k > 0 {
                    assert(no[k] == o[k - 1]);
                }
            }
            assert forall|k: int, l: int|
                0 <= k < no.len() && 0 <= l < no.len() && k != l implies #[trigger] no[k] != #[trigger] no[l] by {
                if k > 0 && l > 0 {
                    assert(no[k] == o[k - 1] && no[l] == o[l - 1]);
                } else if k > 0 {
                    assert(no[k] == o[k - 1]);
                    assert(o[k - 1] < n0.len());
                } else if l > 0 {
                    assert(no[l] == o[l - 1]);
                    assert(o[l - 1] < n0.len());
                }
            }
            assert forall|j: int| 0 <= j < n.len() implies ((#[trigger] n[j]).inner is Some <==> self.live(j)) by {
                if j == idx {
                    assert(self.order@[0] == idx);
                } else {
                    assert(n[j].inner == n0[j].inner);
                    assert(n0[j].inner is Some <==> old(self).live(j));
                    if self.live(j) {
                        let k = choose|k: int| 0 <= k < self.order@.len() && self.order@[k] == j;
                        assert(k > 0);
                        assert(old(self).order@[k - 1] == j);
                    }
                    if old(self).live(j) {
                        let k = choose|k: int| 0 <= k < old(self).order@.len() && old(self).order@[k] == j;
                        assert(self.order@[k + 1] == j);
                    }
                }
            }
            assert forall|k: int| 0 <= k < no.len() implies (#[trigger] n[no[k] as int]).next == next_in(no, k) by {
                if k > 0 {
                    assert(no[k] == o[k - 1]);
                    assert(n[no[k] as int] == n0[o[k - 1] as int] || (k == 1 && n[no[k] as int].next == n0[o[0] as int].next));
                    if k + 1 < no.len() {
                        assert(no[k + 1] == o[k]);
                    }
                }
            }
            assert forall|k: int| 0 <= k < no.len() implies n[no[k] as int].prev == prev_in(no, k) by {
                if k > 1 {
                    assert(no[k] == o[k - 1]);
                    assert(no[k - 1] == o[k - 2]);
                    assert(o[k - 1] != o[0]);
                    assert(o[k - 1] < n0.len());
                    assert(n0[o[k - 1] as int].prev == prev_in(o, k - 1));
                    assert(n[o[k - 1] as int] == n0[o[k - 1] as int]);
                } else if k == 1 {
                    assert(no[1] == o[0]);
                }
            }
            assert(self.handles() =~= seq![handle_of(idx)] + old(self).handles());
            assert(self@ =~= seq![data] + old(self)@) by {
                assert forall|k: int| 0 <= k < no.len() implies self@[k] == (seq![data] + old(self)@)[k] by {
                    if k > 0 {
                        assert(no[k] == o[k - 1]);
                        assert(n[o[k - 1] as int].inner == n0[o[k - 1] as int].inner);
                    }
                }
            }
            if old(self).handles().contains(handle_of(idx)) {
                let k = choose|k: int| 0 <= k < o.len() && old(self).handles()[k] == handle_of(idx);
                old(self).lemma_handles();
                assert(o[k] != idx);
            }
            assert forall|m: int| 0 <= m < self.free@.len() implies (#[trigger] self.free@[m]) < n.len()
                && n[self.free@[m] as int].inner is None by {
                let x = self.free@[m] as int;
                assert(n0[x].inner is None);
                if o.len() > 0 {
                    assert(o[0] as int != x && o[o.len() - 1] as int != x) by {
                        assert(old(self).live(o[0] as int));
                        assert(old(self).live(o[o.len() - 1] as int));
                    }
                }
            }
        }
        NodeHandle { index: idx }
    }

    /// Inserts `data` after the last element and returns the new node's handle.
    pub fn push_back(&mut self, data: T) -> (h: NodeHandle)
        requires
            old(self).wf(),
        ensures
            final(self).wf(),
            final(self)@ == old(self)@.push(data),
            final(self).handles() == old(self).handles().push(h),
            !old(self).handles().contains(h),
            (final(self)@, final(self).handles(), false) == call_effect(
                old(self)@,
                old(self).handles(),
                ListCall::PushBack(data, h),
            ),
    {
        let ghost o = self.order@;
        let ghost n0 = self.nodes@;
        let node = LinkedNode { inner: Some(data), next: None, prev: self.last };
        let idx = self.place_node(node);
        proof {
            old(self).lemma_dead_slot(idx);
        }
        match self.last {
            Some(l) => {
                self.nodes[l].next = Some(idx);
            },
            None => {
                self.first = Some(idx);
            },
        }
        self.last = Some(idx);
        assert(self.length < self.nodes.len());
        self.length = self.length + 1;
        proof {
            let no = o.push(idx);
            self.order = Ghost(no);
            let n = self.nodes@;
            assert forall|k: int| 0 <= k < no.len() implies (#[trigger] no[k]) < n.len() by {
                if k < o.len() {
                    assert(no[k] == o[k]);
                }
            }
            assert forall|k: int, l: int|
                0 <= k < no.len() && 0 <= l < no.len() && k != l implies #[trigger] no[k] != #[trigger] no[l] by {
                if k < o.len() && l < o.len() {
                    assert(no[k] == o[k] && no[l] == o[l]);
                } else if k < o.len() {
                    assert(no[k] == o[k]);
                    assert(o[k] < n0.len());
                } else if l < o.len() {
                    assert(no[l] == o[l]);
                    assert(o[l] < n0.len());
                }
            }
            assert forall|j: int| 0 <= j < n.len() implies ((#[trigger] n[j]).inner is Some <==> self.live(j)) by {
                if j == idx {
                    assert(self.order@[o.len() as int] == idx);
                } else {
                    assert(n[j].inner == n0[j].inner);
                    assert(n0[j].inner is Some <==> old(self).live(j));
                    if self.live(j) {
                        let k = choose|k: int| 0 <= k < self.order@.len() && self.order@[k] == j;
                        assert(k < o.len());
                        assert(old(self).order@[k] == j);
                    }
                    if old(self).live(j) {
                        let k = choose|k: int| 0 <= k < old(self).order@.len() && old(self).order@[k] == j;
                        assert(self.order@[k] == j);
                    }
                }
            }
            assert forall|k: int| 0 <= k < no.len() implies (#[trigger] n[no[k] as int]).next == next_in(no, k) by {
                if k + 1 < o.len() {
                    assert(no[k] == o[k]);
                    assert(no[k + 1] == o[k + 1]);
                    assert(o[k] != o[o.len() - 1]);
                    assert(o[k] < n0.len());
                    assert(n0[o[k] as int].next == next_in(o, k));
                    assert(n[o[k] as int] == n0[o[k] as int]);
                } else if k + 1 == o.len() {
                    assert(no[k] == o[k]);
                }
            }
            assert forall|k: int| 0 <= k < no.len() implies n[no[k] as int].prev == prev_in(no, k) by {
                if k < o.len() {
                    assert(no[k] == o[k]);
                    assert(o[k] < n0.len());
                    assert(n0[o[k] as int].prev == prev_in(o, k));
                    if k > 0 {
                        assert(no[k - 1] == o[k - 1]);
                    }
                }
            }
            assert(self.handles() =~= old(self).handles().push(handle_of(idx)));
            assert(self@ =~= old(self)@.push(data)) by {
                assert forall|k: int| 0 <= k < no.len() implies self@[k] == old(self)@.push(data)[k] by {
                    if k < o.len() {
                        assert(no[k] == o[k]);
                        assert(n[o[k] as int].inner == n0[o[k] as int].inner);
                    }
                }
            }
            if old(self).handles().contains(handle_of(idx)) {
                let k = choose|k: int| 0 <= k < o.len() && old(self).handles()[k] == handle_of(idx);
                old(self).lemma_handles();
                assert(o[k] != idx);
            }
            assert forall|m: int| 0 <= m < self.free@.len() implies (#[trigger] self.free@[m]) < n.len()
                && n[self.free@[m] as int].inner is None by {
                let x = self.free@[m] as int;
                assert(n0[x].inner is None);
                if o.len() > 0 {
                    assert(o[0] as int != x && o[o.len() - 1] as int != x) by {
                        assert(old(self).live(o[0] as int));
                        assert(old(self).live(o[o.len() - 1] as int));
                    }
                }
            }
        }
        NodeHandle { index: idx }
    }

    /// Unlinks the node in arena slot `i`, found at position `k`, and returns its element.
    fn unlink(&mut self, i: usize, Ghost(k): Ghost<int>) -> (value: T)
        requires
            old(self).wf(),
            0 <= k < old(self).order@.len(),
            old(self).order@[k] == i,
        ensures
            final(self).wf(),
            value == old(self)@[k],
            final(self)@ == old(self)@.remove(k),
            final(self).handles() == old(self).handles().remove(k),
    {
        let ghost o = self.order@;
        let ghost n0 = self.nodes@;
        assert(n0[i as int].next == next_in(o, k));
        assert(n0[i as int].prev == prev_in(o, k));
        let value_opt = self.nodes[i].inner.take();
        let prev = self.nodes[i].prev;
        let next = self.nodes[i].next;
        let ghost n1 = self.nodes@;
        match prev {
            Some(p) => {
                assert(p == o[k - 1]);
                self.nodes[p].next = next;
            },
            None => {
                self.first = next;
            },
        }
        let ghost n2 = self.nodes@;
        match next {
            Some(x) => {
                assert(x == o[k + 1]);
                self.nodes[x].prev = prev;
            },
            None => {
                self.last = prev;
            },
        }
        self.length = self.length - 1;
        let ghost f0 = self.free@;
        self.free.push(i);
        proof {
            let no = o.remove(k);
            self.order = Ghost(no);
            let n = self.nodes@;
            assert(n.len() == n0.len());
            // Slots other than i and its neighbours are untouched.
            assert forall|j: int| 0 <= j < n.len() && j != i && (k == 0 || j != o[k - 1]) && (k + 1 >= o.len() || j != o[k + 1])
                implies #[trigger] n[j] == n0[j] by {}
            assert forall|j: int| 0 <= j < n.len() && j != i implies (#[trigger] n[j]).inner == n0[j].inner by {}
            assert forall|m: int| 0 <= m < no.len() implies (#[trigger] no[m]) < n.len() by {
                if m < k {
                    assert(no[m] == o[m]);
                } else {
                    assert(no[m] == o[m + 1]);
                }
            }
            assert forall|a: int, b: int|
                0 <= a < no.len() && 0 <= b < no.len() && a != b implies #[trigger] no[a] != #[trigger] no[b] by {
                let a1 = if a < k { a } else { a + 1 };
                let b1 = if b < k { b } else { b + 1 };
                assert(no[a] == o[a1] && no[b] == o[b1]);
            }
            assert forall|j: int| 0 <= j < n.len() implies ((#[trigger] n[j]).inner is Some <==> self.live(j)) by {
                if j == i {
                    if self.live(j) {
                        let m = choose|m: int| 0 <= m < no.len() && self.order@[m] == j;
                        let m1 = if m < k { m } else { m + 1 };
                        assert(o[m1] == j);
                        assert(o[k] == j);
                    }
                } else {
                    assert(n0[j].inner is Some <==> old(self).live(j));
                    if self.live(j) {
                        let m = choose|m: int| 0 <= m < no.len() && self.order@[m] == j;
                        let m1 = if m < k { m } else { m + 1 };
                        assert(old(self).order@[m1] == j);
                    }
                    if old(self).live(j) {
                        let m = choose|m: int| 0 <= m < o.len() && old(self).order@[m] == j;
                        assert(m != k);
                        let m2 = if m < k { m } else { m - 1 };
                        assert(self.order@[m2] == j);
                    }
                }
            }
            assert forall|m: int| 0 <= m < no.len() implies (#[trigger] n[no[m] as int]).next == next_in(no, m) by {
                let m1 = if m < k { m } else { m + 1 };
                assert(no[m] == o[m1]);
                assert(o[m1] != i);
                assert(n0[o[m1] as int].next == next_in(o, m1));
                if m + 1 < k {
                    assert(o[m1] != o[k - 1]);
                    if k + 1 < o.len() {
                        assert(o[m1] != o[k + 1]);
                    }
                    assert(no[m + 1] == o[m + 1]);
                } else if m + 1 == k {
                    if k + 1 < o.len() {
                        assert(o[m1] != o[k + 1]);
                        assert(no[m + 1] == o[k + 1]);
                    }
                } else {
                    if k > 0 {
                        assert(o[m1] != o[k - 1]);
                    }
                    if m + 1 < no.len() {
                        assert(no[m + 1] == o[m + 2]);
                    }
                }
            }
            assert forall|m: int| 0 <= m < no.len() implies n[no[m] as int].prev == prev_in(no, m) by {
                let m1 = if m < k { m } else { m + 1 };
                assert(no[m] == o[m1]);
                assert(o[m1] != i);
                assert(n0[o[m1] as int].prev == prev_in(o, m1));
                if m < k {
                    if k > 0 {
                        if m != k - 1 {
                            assert(o[m1] != o[k - 1]);
                        }
                    }
                    if k + 1 < o.len() {
                        assert(o[m1] != o[k + 1]);
                    }
                    if m > 0 {
                        assert(no[m - 1] == o[m - 1]);
                    }
                } else if m == k {
                    if k > 0 {
                        assert(o[m1] != o[k - 1]);
                        assert(no[m - 1] == o[k - 1]);
                    }
                } else {
                    if k > 0 {
                        assert(o[m1] != o[k - 1]);
                    }
                    assert(o[m1] != o[k + 1]);
                    assert(no[m - 1] == o[m]);
                }
            }
            assert(self.free@ == f0.push(i));
            assert forall|m: int| 0 <= m < f0.len() implies (#[trigger] f0[m]) != i by {
                assert(old(self).live(i as int));
            }
            assert forall|m: int| 0 <= m < self.free@.len() implies (#[trigger] self.free@[m]) < n.len()
                && n[self.free@[m] as int].inner is None by {
                if m < f0.len() {
                    assert(self.free@[m] == f0[m]);
                    assert(n0[f0[m] as int].inner is None);
                }
            }
            assert forall|a: int, b: int| 0 <= a < b < self.free@.len() implies self.free@[a] != self.free@[b] by {
                if b < f0.len() {
                    assert(self.free@[a] == f0[a] && self.free@[b] == f0[b]);
                } else {
                    assert(self.free@[a] == f0[a]);
                }
            }
            assert(self.handles() =~= old(self).handles().remove(k));
            assert(self@ =~= old(self)@.remove(k)) by {
                assert forall|m: int| 0 <= m < no.len() implies self@[m] == old(self)@.remove(k)[m] by {
                    let m1 = if m < k { m } else { m + 1 };
                    assert(no[m] == o[m1]);
                    assert(o[m1] != i);
                }
            }
        }
        value_opt.unwrap()
    }

    /// Removes and returns the first element, or `None` when the list is empty.
    pub fn pop_front(&mut self) -> (r: Option<T>)
        requires
            old(self).wf(),
        ensures
            final(self).wf(),
            old(self)@.len() == 0 ==> r is None && final(self)@ == old(self)@ && final(self).handles() == old(self).handles(),
            old(self)@.len() > 0 ==> r == Some(old(self)@[0]) && final(self)@ == old(self)@.drop_first()
                && final(self).handles() == old(self).handles().drop_first(),
            (final(self)@, final(self).handles(), r is Some) == call_effect(
                old(self)@,
                old(self).handles(),
                ListCall::PopFront,
            ),
    {
        match self.first {
            None => None,
            Some(f) => {
                let ghost h0 = self.handles();
                let ghost v0 = self@;
                let v = self.unlink(f, Ghost(0));
                assert(v0.remove(0) =~= v0.drop_first());
                assert(h0.remove(0) =~= h0.drop_first());
                Some(v)
            },
        }
    }

    /// Removes and returns the last element, or `None` when the list is empty.
    pub fn pop_back(&mut self) -> (r: Option<T>)
        requires
            old(self).wf(),
        ensures
            final(self).wf(),
            old(self)@.len() == 0 ==> r is None && final(self)@ == old(self)@ && final(self).handles() == old(self).handles(),
            old(self)@.len() > 0 ==> r == Some(old(self)@.last()) && final(self)@ == old(self)@.drop_last()
                && final(self).handles() == old(self).handles().drop_last(),
            (final(self)@, final(self).handles(), r is Some) == call_effect(
                old(self)@,
                old(self).handles(),
                ListCall::PopBack,
            ),
    {
        match self.last {
            None => None,
            Some(l) => {
                let ghost h0 = self.handles();
                let ghost v0 = self@;
                let ghost k = self.order@.len() - 1;
                let v = self.unlink(l, Ghost(k));
                assert(v0.remove(k) =~= v0.drop_last());
                assert(h0.remove(k) =~= h0.drop_last());
                Some(v)
            },
        }
    }

    /// Every handle of a well-formed list addresses exactly one node.
    pub proof fn lemma_handles_distinct(&self)
        requires
            self.wf(),
        ensures
            self.handles().no_duplicates(),
            self.handles().len() == self@.len(),
    {
        self.lemma_handles();
        assert forall|a: int, b: int| 0 <= a < self.handles().len() && 0 <= b < self.handles().len() && a != b
            implies self.handles()[a] != self.handles()[b] by {
            assert(self.order@[a] != self.order@[b]);
        }
    }

    /// Finds the position of the node that `h` addresses, if it is in the list.
    fn position_of(&self, h: NodeHandle) -> (r: Option<Ghost<int>>)
        requires
            self.wf(),
        ensures
            r is None <==> !self.handles().contains(h),
            r matches Some(k) ==> 0 <= k@ < self.order@.len() && self.order@[k@] == h.index
                && k@ == self.handles().index_of(h),
    {
        proof {
            self.lemma_handles();
            self.lemma_handles_distinct();
        }
        if h.index < self.nodes.len() && self.nodes[h.index].inner.is_some() {
            let ghost i = h.index as int;
            assert(self.nodes@[i].inner is Some);
            assert(self.live(i));
            let ghost k = choose|k: int| 0 <= k < self.order@.len() && self.order@[k] == i;
            assert(self.handles()[k] == h);
            let ghost k2 = self.handles().index_of(h);
            assert(self.handles()[k2] == h);
            assert(k == k2);
            Some(Ghost(k))
        } else {
            proof {
                if self.handles().contains(h) {
                    let k = choose|k: int| 0 <= k < self.handles().len() && self.handles()[k] == h;
                    assert(self.order@[k] == h.index);
                    assert(self.order@[k] < self.nodes@.len());
                    assert(self.live(h.index as int));
                }
            }
            None
        }
    }

    /// Removes the node that `h` addresses and returns its element; returns
    /// `None` and leaves the list unchanged when `h` addresses no node of it.
    pub fn pinch(&mut self, h: NodeHandle) -> (r: Option<T>)
        requires
            old(self).wf(),
        ensures
            final(self).wf(),
            !old(self).handles().contains(h) ==> r is None && final(self)@ == old(self)@
                && final(self).handles() == old(self).handles(),
            old(self).handles().contains(h) ==> ({
                let k = old(self).handles().index_of(h);
                &&& r == Some(old(self)@[k])
                &&& final(self)@ == old(self)@.remove(k)
                &&& final(self).handles() == old(self).handles().remove(k)
            }),
            (final(self)@, final(self).handles(), r is Some) == call_effect(
                old(self)@,
                old(self).handles(),
                ListCall::Pinch(h),
            ),
    {
        match self.position_of(h) {
            None => None,
            Some(k) => Some(self.unlink(h.index, k)),
        }
    }

    /// The amount by which `merge` moves the handles of the list appended to
    /// this one: none when this list is empty (it takes the other list over
    /// as it is), else the size of this list's arena.
    pub closed spec fn merge_offset(&self) -> usize {
        if self.order@.len() == 0 {
            0
        } else {
            self.nodes@.len() as usize
        }
    }

    /// The handle that a node of a list appended by `merge` gets in this list.
    pub fn handle_after_merge(&self, h: NodeHandle) -> (r: NodeHandle)
        requires
            self.wf(),
        ensures
            r == shifted(h, self.merge_offset()),
    {
        let off = if self.length == 0 {
            0
        } else {
            self.nodes.len()
        };
        NodeHandle { index: h.index.wrapping_add(off) }
    }

    /// Appends `right` after the last element of `self`, taking over its
    /// nodes: every node of `right` stays in the list, after those of `self`,
    /// under the handle that `handle_after_merge` gives for its old handle.
    pub fn merge(&mut self, right: LinkedList<T>)
        requires
            old(self).wf(),
            right.wf(),
        ensures
            final(self).wf(),
            final(self)@ == old(self)@ + right@,
            final(self).handles() == old(self).handles() + right.handles().map_values(
                |h: NodeHandle| shifted(h, old(self).merge_offset()),
            ),
    {
        if self.length == 0 {
            *self = right;
            proof {
                assert(self@ =~= old(self)@ + right@);
                assert forall|k: int| 0 <= k < right.handles().len() implies #[trigger] shifted(
                    right.handles()[k],
                    0,
                ) == right.handles()[k] by {}
                assert(self.handles() =~= old(self).handles() + right.handles().map_values(
                    |h: NodeHandle| shifted(h, old(self).merge_offset()),
                ));
            }
            return;
        }
        if right.length == 0 {
            proof {
                assert(right.handles() =~= Seq::<NodeHandle>::empty());
                assert(right@ =~= Seq::<T>::empty());
                assert(self@ =~= old(self)@ + right@);
                assert(self.handles() =~= old(self).handles() + right.handles().map_values(
                    |h: NodeHandle| shifted(h, old(self).merge_offset()),
                ));
            }
            return;
        }
        self.append_nodes(right);
    }

    /// `merge` of two non-empty lists: the arena of `right` is moved behind
    /// that of `self` and the two chains are joined.
    fn append_nodes(&mut self, right: LinkedList<T>)
        requires
            old(self).wf(),
            right.wf(),
            old(self).order@.len() > 0,
            right.order@.len() > 0,
        ensures
            final(self).wf(),
            final(self)@ == old(self)@ + right@,
            final(self).handles() == old(self).handles() + right.handles().map_values(
                |h: NodeHandle| shifted(h, old(self).merge_offset()),
            ),
    {
        let ghost n1 = self.nodes@;
        let ghost o1 = self.order@;
        let ghost n2 = right.nodes@;
        let ghost o2 = right.order@;
        let off = self.nodes.len();
        let LinkedList { nodes: mut rn, free: rfree, first: rfirst, last: rlast, length: rlen, order: _ } = right;
        let n2len = rn.len();
        // Move the slots of `right` behind those of `self`, links as they are.
        let mut i: usize = 0;
        while i < rn.len()
            invariant
                rn@.len() == n2.len() == n2len,
                self.nodes@.len() == off + i,
                self.first == old(self).first && self.last == old(self).last,
                self.length == old(self).length && self.order == old(self).order,
                self.free == old(self).free,
                off == n1.len(),
                i <= n2len,
                forall|j: int| 0 <= j < off ==> #[trigger] self.nodes@[j] == n1[j],
                forall|j: int| i <= j < n2len ==> #[trigger] rn@[j] == n2[j],
                forall|j: int| 0 <= j < i ==> (#[trigger] self.nodes@[off + j]).inner == n2[j].inner
                    && self.nodes@[off + j].next == n2[j].next && self.nodes@[off + j].prev == n2[j].prev,
            decreases n2len - i,
        {
            let inner = rn[i].inner.take();
            let node = LinkedNode { inner, next: rn[i].next, prev: rn[i].prev };
            self.nodes.push(node);
            i = i + 1;
        }
        // Move their links by the same amount.
        let total = self.nodes.len();
        assert forall|x: int| off <= x < total implies (#[trigger] self.nodes@[x]).next == n2[x - off].next
            && self.nodes@[x].prev == n2[x - off].prev && self.nodes@[x].inner == n2[x - off].inner by {
            assert(self.nodes@[off + (x - off)] == self.nodes@[x]);
        }
        assert forall|x: int| 0 <= x < n2len implies (#[trigger] self.nodes@[off + x]).inner == n2[x].inner by {}
        let mut j: usize = off;
        while j < total
            invariant
                total == self.nodes@.len() == off + n2len,
                self.first == old(self).first && self.last == old(self).last,
                self.length == old(self).length && self.order == old(self).order,
                self.free == old(self).free,
                off == n1.len(),
                n2len == n2.len(),
                off <= j <= total,
                forall|x: int| 0 <= x < off ==> #[trigger] self.nodes@[x] == n1[x],
                forall|x: int| 0 <= x < n2len ==> (#[trigger] self.nodes@[off + x]).inner == n2[x].inner,
                forall|x: int| off <= x < j ==> #[trigger] moved_links(self.nodes@[x], n2[x - off], off, n2len),
                forall|x: int| j <= x < total ==> (#[trigger] self.nodes@[x]).next == n2[x - off].next
                    && self.nodes@[x].prev == n2[x - off].prev,
            decreases total - j,
        {
            let nx = match self.nodes[j].next {
                Some(x) => if x < n2len {
                    Some(x + off)
                } else {
                    None
                },
                None => None,
            };
            let pv = match self.nodes[j].prev {
                Some(x) => if x < n2len {
                    Some(x + off)
                } else {
                    None
                },
                None => None,
            };
            self.nodes[j].next = nx;
            self.nodes[j].prev = pv;
            j = j + 1;
        }
        let ghost n3 = self.nodes@;
        // The free slots of `right` move with its arena.
        let ghost f1 = self.free@;
        let ghost f2s = right.free@;
        let mut m: usize = 0;
        while m < rfree.len()
            invariant
                self.nodes@ == n3,
                n3.len() == off + n2len,
                total == off + n2len,
                self.first == old(self).first && self.last == old(self).last,
                self.length == old(self).length && self.order == old(self).order,
                rfree@ == f2s,
                f2s == right.free@,
                forall|x: int| 0 <= x < f2s.len() ==> (#[trigger] f2s[x]) < n2len,
                m <= rfree@.len(),
                self.free@ == f1 + f2s.take(m as int).map_values(|x: usize| (x + off) as usize),
            decreases rfree@.len() - m,
        {
            let x = rfree[m];
            let ghost before = self.free@;
            self.free.push(x + off);
            assert(f2s.take(m + 1).map_values(|x: usize| (x + off) as usize) =~= f2s.take(m as int).map_values(
                |x: usize| (x + off) as usize,
            ).push((x + off) as usize));
            m = m + 1;
        }
        assert(f2s.take(f2s.len() as int) =~= f2s);
        // Join the chains.
        let l1 = self.last.unwrap();
        let f2 = rfirst.unwrap();
        let l2 = rlast.unwrap();
        proof {
            assert(o2[0] == f2 && o2[o2.len() - 1] == l2);
            assert(o1[o1.len() - 1] == l1);
            assert(f2 < n2len && l2 < n2len && l1 < off);
        }
        self.nodes[l1].next = Some(f2 + off);
        self.nodes[f2 + off].prev = Some(l1);
        self.last = Some(l2 + off);
        self.length = self.length + rlen;
        proof {
            let so = o2.map_values(|x: usize| (x + off) as usize);
            let no = o1 + so;
            self.order = Ghost(no);
            let n = self.nodes@;
            let len1 = o1.len() as int;
            assert(n.len() == off + n2len);
            assert forall|x: int| 0 <= x < n.len() && x != l1 && x != f2 + off implies #[trigger] n[x] == n3[x] by {}
            assert forall|x: int| 0 <= x < n.len() implies (#[trigger] n[x]).inner == n3[x].inner by {}
            assert forall|k: int| 0 <= k < o2.len() implies #[trigger] so[k] == o2[k] + off && o2[k] < n2len by {}
            assert forall|k: int| 0 <= k < no.len() implies (#[trigger] no[k]) < n.len() by {
                if k >= len1 {
                    assert(no[k] == so[k - len1]);
                }
            }
            assert forall|a: int, b: int|
                0 <= a < no.len() && 0 <= b < no.len() && a != b implies #[trigger] no[a] != #[trigger] no[b] by {
                if a < len1 && b < len1 {
                    assert(no[a] == o1[a] && no[b] == o1[b]);
                } else if a >= len1 && b >= len1 {
                    assert(no[a] == so[a - len1] && no[b] == so[b - len1]);
                    assert(o2[a - len1] != o2[b - len1]);
                } else if a < len1 {
                    assert(no[a] == o1[a] && o1[a] < off);
                    assert(no[b] == so[b - len1]);
                } else {
                    assert(no[b] == o1[b] && o1[b] < off);
                    assert(no[a] == so[a - len1]);
                }
            }
            assert forall|x: int| 0 <= x < n.len() implies ((#[trigger] n[x]).inner is Some <==> self.live(x)) by {
                if x < off {
                    assert(n[x].inner == n1[x].inner);
                    assert(n1[x].inner is Some <==> old(self).live(x));
                    if self.live(x) {
                        let k = choose|k: int| 0 <= k < no.len() && self.order@[k] == x;
                        if k >= len1 {
                            assert(no[k] == so[k - len1]);
                            assert(false);
                        }
                        assert(o1[k] == x);
                        assert(old(self).live(x));
                    }
                    if old(self).live(x) {
                        let k = choose|k: int| 0 <= k < o1.len() && old(self).order@[k] == x;
                        assert(no[k] == x);
                        assert(self.order@[k] == x);
                        assert(self.live(x));
                    }
                } else {
                    assert(n3[off + (x - off)].inner == n2[x - off].inner);
                    assert(n[x].inner == n2[x - off].inner);
                    assert(n2[x - off].inner is Some <==> right.live(x - off));
                    if self.live(x) {
                        let k = choose|k: int| 0 <= k < no.len() && self.order@[k] == x;
                        if k < len1 {
                            assert(no[k] == o1[k] && o1[k] < off);
                            assert(false);
                        }
                        assert(no[k] == so[k - len1]);
                        assert(o2[k - len1] == x - off);
                        assert(right.live(x - off));
                    }
                    if right.live(x - off) {
                        let k = choose|k: int| 0 <= k < o2.len() && right.order@[k] == x - off;
                        assert(no[k + len1] == so[k]);
                        assert(self.order@[k + len1] == x);
                        assert(self.live(x));
                    }
                }
            }
            assert forall|k: int| 0 <= k < no.len() implies (#[trigger] n[no[k] as int]).next == next_in(no, k) by {
                if k < len1 {
                    assert(no[k] == o1[k]);
                    assert(n1[o1[k] as int].next == next_in(o1, k));
                    if k + 1 < len1 {
                        assert(o1[k] != l1);
                        assert(no[k + 1] == o1[k + 1]);
                    } else {
                        assert(no[k + 1] == so[0]);
                    }
                } else {
                    let m = k - len1;
                    assert(no[k] == so[m]);
                    let y = o2[m] as int;
                    assert(n2[y].next == next_in(o2, m));
                    assert(right.live(y));
                    assert(n2[y].inner is Some);
                    assert(moved_links(n3[y + off], n2[y], off, n2len));
                    if m + 1 < o2.len() {
                        assert(no[k + 1] == so[m + 1]);
                    }
                }
            }
            assert forall|k: int| 0 <= k < no.len() implies n[no[k] as int].prev == prev_in(no, k) by {
                if k < len1 {
                    assert(no[k] == o1[k]);
                    assert(n1[o1[k] as int].prev == prev_in(o1, k));
                    if k > 0 {
                        assert(no[k - 1] == o1[k - 1]);
                    }
                } else {
                    let m = k - len1;
                    assert(no[k] == so[m]);
                    let y = o2[m] as int;
                    assert(n2[y].prev == prev_in(o2, m));
                    assert(right.live(y));
                    assert(moved_links(n3[y + off], n2[y], off, n2len));
                    if m > 0 {
                        assert(o2[m] != f2);
                        assert(no[k - 1] == so[m - 1]);
                    } else {
                        assert(no[k - 1] == o1[len1 - 1]);
                    }
                }
            }
            let sf = f2s.map_values(|x: usize| (x + off) as usize);
            assert(self.free@ == f1 + sf);
            assert forall|a: int| 0 <= a < self.free@.len() implies (#[trigger] self.free@[a]) < n.len()
                && n[self.free@[a] as int].inner is None && (a < f1.len() ==> self.free@[a] < off)
                && (a >= f1.len() ==> self.free@[a] >= off) by {
                if a < f1.len() {
                    assert(self.free@[a] == f1[a]);
                    assert(n1[f1[a] as int].inner is None);
                } else {
                    let y = f2s[a - f1.len()] as int;
                    assert(self.free@[a] == sf[a - f1.len()]);
                    assert(n2[y].inner is None);
                    assert(n3[off + y].inner == n2[y].inner);
                }
            }
            assert forall|a: int, b: int| 0 <= a < b < self.free@.len() implies self.free@[a] != self.free@[b] by {
                if a >= f1.len() && b >= f1.len() {
                    assert(self.free@[a] == sf[a - f1.len()] && self.free@[b] == sf[b - f1.len()]);
                    assert(f2s[a - f1.len()] != f2s[b - f1.len()]);
                } else if a < f1.len() && b < f1.len() {
                    assert(self.free@[a] == f1[a] && self.free@[b] == f1[b]);
                }
            }
            assert(self@ =~= old(self)@ + right@) by {
                assert forall|k: int| 0 <= k < no.len() implies self@[k] == (old(self)@ + right@)[k] by {
                    if k < len1 {
                        assert(no[k] == o1[k]);
                        assert(n[o1[k] as int].inner == n1[o1[k] as int].inner);
                    } else {
                        let y = o2[k - len1] as int;
                        assert(no[k] == so[k - len1]);
                        assert(n3[off + y].inner == n2[y].inner);
                        assert(n[y + off].inner == n2[y].inner);
                    }
                }
            }
            assert(self.handles() =~= old(self).handles() + right.handles().map_values(
                |h: NodeHandle| shifted(h, old(self).merge_offset()),
            )) by {
                assert forall|k: int| 0 <= k < no.len() implies self.handles()[k] == (old(self).handles()
                    + right.handles().map_values(|h: NodeHandle| shifted(h, old(self).merge_offset())))[k] by {
                    if k >= len1 {
                        assert(no[k] == so[k - len1]);
                    }
                }
            }
        }
    }

    /// A reference to the element of the node that `h` addresses.
    pub fn get(&self, h: NodeHandle) -> (r: Option<&T>)
        requires
            self.wf(),
        ensures
            r is Some <==> self.handles().contains(h),
            r matches Some(v) ==> *v == self@[self.handles().index_of(h)],
    {
        match self.position_of(h) {
            None => None,
            Some(k) => self.nodes[h.index].inner.as_ref(),
        }
    }

    /// The handle of the first node.
    pub fn first_handle(&self) -> (r: Option<NodeHandle>)
        requires
            self.wf(),
        ensures
            r == self.first_of(),
    {
        proof { self.lemma_handles(); }
        match self.first {
            Some(f) => Some(NodeHandle { index: f }),
            None => None,
        }
    }

    /// The handle of the last node.
    pub fn last_handle(&self) -> (r: Option<NodeHandle>)
        requires
            self.wf(),
        ensures
            r == self.last_of(),
    {
        proof { self.lemma_handles(); }
        match self.last {
            Some(l) => Some(NodeHandle { index: l }),
            None => None,
        }
    }

    /// The handle of the node after the one that `h` addresses.
    pub fn next_of(&self, h: NodeHandle) -> (r: Option<NodeHandle>)
        requires
            self.wf(),
        ensures
            r == self.next_handle(h),
    {
        proof { self.lemma_handles(); }
        match self.position_of(h) {
            None => None,
            Some(k) => {
                assert(self.nodes@[self.order@[k@] as int].next == next_in(self.order@, k@));
                match self.nodes[h.index].next {
                    Some(x) => Some(NodeHandle { index: x }),
                    None => None,
                }
            },
        }
    }

    /// The handle of the node before the one that `h` addresses.
    pub fn prev_of(&self, h: NodeHandle) -> (r: Option<NodeHandle>)
        requires
            self.wf(),
        ensures
            r == self.prev_handle(h),
    {
        proof { self.lemma_handles(); }
        match self.position_of(h) {
            None => None,
            Some(k) => {
                assert(self.nodes@[self.order@[k@] as int].prev == prev_in(self.order@, k@));
                match self.nodes[h.index].prev {
                    Some(x) => Some(NodeHandle { index: x }),
                    None => None,
                }
            },
        }
    }

    /// A cursor over the elements, from first to last.
    pub fn iter(&self) -> (it: Iter<'_, T>)
        requires
            self.wf(),
        ensures
            it.wf(),
            it.list() == self,
            it.pos() == 0,
    {
        Iter { list: self, next: self.first, pos: Ghost(0) }
    }

    /// A cursor that hands out the elements mutably, from first to last.
    pub fn iter_mut(&mut self) -> (it: IterMut<'_, T>)
        requires
            old(self).wf(),
        ensures
            it.wf(),
            it.list()@ == old(self)@,
            it.list().handles() == old(self).handles(),
            it.pos() == 0,
            *final(it.list_borrow()) == *final(self),
    {
        let next = self.first;
        IterMut { list: self, next, pos: Ghost(0) }
    }

    /// Turns the list into a cursor that yields its elements by value.
    pub fn into_iter(self) -> (it: IntoIter<T>)
        requires
            self.wf(),
        ensures
            it.wf(),
            it.remaining() == self@,
    {
        IntoIter { list: self }
    }

    /// Builds a list holding the elements of `items` in order.
    pub fn from_vec(items: Vec<T>) -> (list: Self)
        ensures
            list.wf(),
            list@ == items@,
    {
        let mut list = Self::new();
        list.extend(items);
        list
    }

    /// Appends the elements of `items` in order.
    pub fn extend(&mut self, items: Vec<T>)
        requires
            old(self).wf(),
        ensures
            final(self).wf(),
            final(self)@ == old(self)@ + items@,
            final(self).handles().take(old(self)@.len() as int) == old(self).handles(),
    {
        let ghost all = items@;
        let mut items = items;
        let mut tail = Self::new();
        while items.len() > 0
            invariant
                tail.wf(),
                items@ + tail@ == all,
            decreases items@.len(),
        {
            let ghost i0 = items@;
            let ghost t0 = tail@;
            let v = items.pop().unwrap();
            tail.push_front(v);
            assert(i0 =~= items@.push(v));
            assert(items@ + tail@ =~= i0 + t0);
        }
        assert(tail@ =~= all);
        self.merge(tail);
    }
}

impl<T> Default for LinkedList<T> {
    fn default() -> (list: Self)
        ensures
            list.wf(),
            list@ == Seq::<T>::empty(),
    {
        Self::new()
    }
}

/// Cursor over the elements of a `LinkedList`.
pub struct Iter<'a, T> {
    list: &'a LinkedList<T>,
    next: Option<usize>,
    pos: Ghost<int>,
}

impl<'a, T> Iter<'a, T> {
    /// The list being walked.
    pub closed spec fn list(&self) -> &'a LinkedList<T> {
        self.list
    }

    /// How many elements have been handed out.
    pub closed spec fn pos(&self) -> int {
        self.pos@
    }

    pub closed spec fn wf(&self) -> bool {
        &&& self.list.wf()
        &&& 0 <= self.pos@ <= self.list.order@.len()
        &&& self.next == (if self.pos@ < self.list.order@.len() { Some(self.list.order@[self.pos@]) } else { None::<usize> })
    }

    /// A cursor never gets past the end of its list.
    pub proof fn lemma_pos_bounded(&self)
        requires
            self.wf(),
        ensures
            0 <= self.pos() <= self.list()@.len(),
    {
    }

    /// Hands out the next element, or `None` after the last one.
    pub fn next(&mut self) -> (r: Option<&'a T>)
        requires
            old(self).wf(),
        ensures
            final(self).wf(),
            final(self).list() == old(self).list(),
            old(self).pos() < old(self).list()@.len() ==> final(self).pos() == old(self).pos() + 1
                && (r matches Some(v) && *v == old(self).list()@[old(self).pos()]),
            old(self).pos() >= old(self).list()@.len() ==> final(self).pos() == old(self).pos() && r is None,
    {
        match self.next {
            None => None,
            Some(i) => {
                let list: &'a LinkedList<T> = self.list;
                let ghost k = self.pos@;
                assert(list.nodes@[list.order@[k] as int].next == next_in(list.order@, k));
                assert(list.order@[k] < list.nodes@.len());
                assert(list.live(list.order@[k] as int));
                self.next = list.nodes[i].next;
                self.pos = Ghost(k + 1);
                list.nodes[i].inner.as_ref()
            },
        }
    }
}

/// Cursor that hands out the elements of a `LinkedList` mutably.
pub struct IterMut<'a, T> {
    list: &'a mut LinkedList<T>,
    next: Option<usize>,
    pos: Ghost<int>,
}

impl<'a, T> IterMut<'a, T> {
    /// The list being walked.
    pub closed spec fn list(&self) -> LinkedList<T> {
        *self.list
    }

    /// The borrow of the list that the cursor holds.
    pub closed spec fn list_borrow(&self) -> &'a mut LinkedList<T> {
        self.list
    }

    /// How many elements have been handed out.
    pub closed spec fn pos(&self) -> int {
        self.pos@
    }

    pub closed spec fn wf(&self) -> bool {
        &&& self.list.wf()
        &&& 0 <= self.pos@ <= self.list.order@.len()
        &&& self.next == (if self.pos@ < self.list.order@.len() { Some(self.list.order@[self.pos@]) } else { None::<usize> })
    }

    /// The list the cursor walks is the one it borrows.
    pub proof fn lemma_list_borrowed(&self)
        ensures
            self.list() == *self.list_borrow(),
            self.wf() ==> self.list().wf() && 0 <= self.pos() <= self.list()@.len(),
    {
    }

    /// Ends the walk: the borrowed list is left as the cursor has made it,
    /// with the elements and handles of `self.list()`.
    pub fn finish(self)
        ensures
            *final(self.list_borrow()) == self.list(),
            self.wf() ==> self.list().wf(),
    {
    }

    /// Hands out the next element mutably, or `None` after the last one.
    pub fn next(&mut self) -> (r: Option<&mut T>)
        requires
            old(self).wf(),
        ensures
            final(self).wf(),
            final(self).list().handles() == old(self).list().handles(),
            *final(final(self).list_borrow()) == *final(old(self).list_borrow()),
            old(self).pos() < old(self).list()@.len() ==> final(self).pos() == old(self).pos() + 1
                && (r matches Some(v) && *v == old(self).list()@[old(self).pos()]
                && final(self).list()@ == old(self).list()@.update(old(self).pos(), *final(v))),
            old(self).pos() >= old(self).list()@.len() ==> final(self).pos() == old(self).pos() && r is None
                && final(self).list() == old(self).list(),
    {
        match self.next {
            None => None,
            Some(i) => {
                let ghost k = self.pos@;
                assert(self.list.nodes@[self.list.order@[k] as int].next == next_in(self.list.order@, k));
                assert(self.list.order@[k] < self.list.nodes@.len());
                assert(self.list.live(self.list.order@[k] as int));
                self.next = self.list.nodes[i].next;
                self.pos = Ghost(k + 1);
                self.list.nodes[i].inner.as_mut()
            },
        }
    }
}

/// Cursor that yields the elements of a `LinkedList` by value.
pub struct IntoIter<T> {
    list: LinkedList<T>,
}

impl<T> IntoIter<T> {
    /// The elements not yet yielded.
    pub closed spec fn remaining(&self) -> Seq<T> {
        self.list@
    }

    pub closed spec fn wf(&self) -> bool {
        self.list.wf()
    }

    /// Yields the next element, or `None` when none is left.
    pub fn next(&mut self) -> (r: Option<T>)
        requires
            old(self).wf(),
        ensures
            final(self).wf(),
            old(self).remaining().len() == 0 ==> r is None && final(self).remaining() == old(self).remaining(),
            old(self).remaining().len() > 0 ==> r == Some(old(self).remaining()[0])
                && final(self).remaining() == old(self).remaining().drop_first(),
    {
        self.list.pop_front()
    }
}

/// Pushing at the back and then popping at the back gives back the pushed
/// element and the list as it was.
pub proof fn lemma_push_back_pop_back<T>(s: Seq<T>, x: T)
    ensures
        s.push(x).len() > 0,
        s.push(x).last() == x,
        s.push(x).drop_last() == s,
{
    assert(s.push(x).drop_last() =~= s);
}

/// Pushing at the front and then popping at the front gives back the pushed
/// element and the list as it was.
pub proof fn lemma_push_front_pop_front<T>(s: Seq<T>, x: T)
    ensures
        (seq![x] + s).len() > 0,
        (seq![x] + s)[0] == x,
        (seq![x] + s).drop_first() == s,
{
    assert((seq![x] + s).drop_first() =~= s);
}

/// Pushing at the back and popping at the front is first in, first out: the
/// front of a non-empty list comes out first, and the pushed element joins
/// the rest at the back.
pub proof fn lemma_fifo<T>(s: Seq<T>, x: T)
    requires
        s.len() > 0,
    ensures
        s.push(x)[0] == s[0],
        s.push(x).drop_first() == s.drop_first().push(x),
{
    assert(s.push(x).drop_first() =~= s.drop_first().push(x));
}

/// Pinching the handle that a push at the back returned takes out exactly
/// the pushed element and leaves the list and its handles as they were.
pub proof fn lemma_pinch_pushed<T>(s: Seq<T>, hs: Seq<NodeHandle>, x: T, h: NodeHandle)
    requires
        hs.len() == s.len(),
        !hs.contains(h),
    ensures
        hs.push(h).contains(h),
        hs.push(h).index_of(h) == s.len(),
        s.push(x)[hs.push(h).index_of(h)] == x,
        s.push(x).remove(hs.push(h).index_of(h)) == s,
        hs.push(h).remove(hs.push(h).index_of(h)) == hs,
{
    let t = hs.push(h);
    assert(t[hs.len() as int] == h);
    assert(t.contains(h));
    let k = t.index_of(h);
    assert(0 <= k < t.len() && t[k] == h);
    if k < hs.len() {
        assert(hs[k] == h);
        assert(hs.contains(h));
    }
    assert(s.push(x).remove(s.len() as int) =~= s);
    assert(t.remove(hs.len() as int) =~= hs);
}

/// A call that changes a list; a push carries the element it adds and the
/// handle it returns.
pub enum ListCall<T> {
    PushFront(T, NodeHandle),
    PushBack(T, NodeHandle),
    PopFront,
    PopBack,
    Pinch(NodeHandle),
}

/// What `c` makes of a list with elements `s` and handles `hs`: the new
/// elements, the new handles, and whether an element came out.
pub open spec fn call_effect<T>(s: Seq<T>, hs: Seq<NodeHandle>, c: ListCall<T>) -> (Seq<T>, Seq<NodeHandle>, bool) {
    match c {
        ListCall::PushFront(x, h) => (seq![x] + s, seq![h] + hs, false),
        ListCall::PushBack(x, h) => (s.push(x), hs.push(h), false),
        ListCall::PopFront => if s.len() > 0 {
            (s.drop_first(), hs.drop_first(), true)
        } else {
            (s, hs, false)
        },
        ListCall::PopBack => if s.len() > 0 {
            (s.drop_last(), hs.drop_last(), true)
        } else {
            (s, hs, false)
        },
        ListCall::Pinch(h) => if hs.contains(h) {
            (s.remove(hs.index_of(h)), hs.remove(hs.index_of(h)), true)
        } else {
            (s, hs, false)
        },
    }
}

/// The elements and handles of a new list after the calls `cs`, and how many
/// elements those calls took out.
pub open spec fn run_calls<T>(cs: Seq<ListCall<T>>) -> (Seq<T>, Seq<NodeHandle>, nat)
    decreases cs.len(),
{
    if cs.len() == 0 {
        (Seq::empty(), Seq::empty(), 0)
    } else {
        let (s, hs, out) = run_calls(cs.drop_last());
        let (s2, hs2, took) = call_effect(s, hs, cs.last());
        (s2, hs2, if took { out + 1 } else { out })
    }
}

/// The number of pushes among `cs`.
pub open spec fn push_count<T>(cs: Seq<ListCall<T>>) -> nat
    decreases cs.len(),
{
    if cs.len() == 0 {
        0
    } else {
        push_count(cs.drop_last()) + match cs.last() {
            ListCall::PushFront(..) | ListCall::PushBack(..) => 1nat,
            _ => 0nat,
        }
    }
}

/// Whatever calls a new list goes through, its length is the number of
/// pushes less the number of elements that pops and pinches took out, and
/// it has one handle per element.
pub proof fn lemma_length_counts_calls<T>(cs: Seq<ListCall<T>>)
    ensures
        run_calls(cs).0.len() == push_count(cs) - run_calls(cs).2,
        run_calls(cs).1.len() == run_calls(cs).0.len(),
    decreases cs.len(),
{
    if cs.len() > 0 {
        lemma_length_counts_calls(cs.drop_last());
        let (s, hs, out) = run_calls(cs.drop_last());
        match cs.last() {
            ListCall::Pinch(h) => {
                if hs.contains(h) {
                    let k = hs.index_of(h);
                    assert(0 <= k < hs.len() && hs[k] == h);
                }
            },
            _ => {},
        }
    }
}

/// In every well-formed list the links run both ways through all nodes:
/// following next links from the first node visits the handles in order and
/// stops after the last; following previous links from the last node visits
/// them in reverse and stops after the first; there is a first node exactly
/// when there is a last one, exactly when the list is not empty.
pub proof fn lemma_links_traverse<T>(l: &LinkedList<T>)
    requires
        l.wf(),
    ensures
        l.first_of() is None <==> l@.len() == 0,
        l.last_of() is None <==> l@.len() == 0,
        forall|k: nat| k < l@.len() ==> #[trigger] l.walk_next(l.first_of(), k) == Some(l.handles()[k as int]),
        l.walk_next(l.first_of(), l@.len()) is None,
        l@.len() > 0 ==> l.walk_next(l.first_of(), (l@.len() - 1) as nat) == l.last_of(),
        forall|k: nat| k < l@.len() ==> #[trigger] l.walk_prev(l.last_of(), k) == Some(
            l.handles()[l@.len() - 1 - k],
        ),
        l.walk_prev(l.last_of(), l@.len()) is None,
        l@.len() > 0 ==> l.walk_prev(l.last_of(), (l@.len() - 1) as nat) == l.first_of(),
        l@.len() > 0 ==> l.prev_handle(l.handles()[0]) is None && l.next_handle(l.handles()[l@.len() - 1]) is None,
{
    l.lemma_handles_distinct();
    let hs = l.handles();
    let n = l@.len();
    assert forall|k: int| 0 <= k < n implies #[trigger] hs.index_of(hs[k]) == k by {
        assert(hs.contains(hs[k]));
        let j = hs.index_of(hs[k]);
        assert(0 <= j < hs.len() && hs[j] == hs[k]);
    }
    lemma_walk_next(l, n);
    lemma_walk_prev(l, n);
}

proof fn lemma_walk_next<T>(l: &LinkedList<T>, m: nat)
    requires
        l.handles().no_duplicates(),
        l.handles().len() == l@.len(),
        m <= l@.len(),
        forall|k: int| 0 <= k < l@.len() ==> #[trigger] l.handles().index_of(l.handles()[k]) == k,
    ensures
        forall|k: nat| k < m ==> #[trigger] l.walk_next(l.first_of(), k) == Some(l.handles()[k as int]),
        m == l@.len() ==> l.walk_next(l.first_of(), m) is None,
    decreases m,
{
    if m > 0 {
        lemma_walk_next(l, (m - 1) as nat);
        let hs = l.handles();
        if m >= 2 {
            assert(l.walk_next(l.first_of(), (m - 2) as nat) == Some(hs[m - 2]));
            assert(hs.contains(hs[m - 2]));
        }
        assert(l.walk_next(l.first_of(), (m - 1) as nat) == Some(hs[m - 1]));
        if m == l@.len() {
            assert(hs.contains(hs[m - 1]));
        }
    }
}

proof fn lemma_walk_prev<T>(l: &LinkedList<T>, m: nat)
    requires
        l.handles().no_duplicates(),
        l.handles().len() == l@.len(),
        m <= l@.len(),
        forall|k: int| 0 <= k < l@.len() ==> #[trigger] l.handles().index_of(l.handles()[k]) == k,
    ensures
        forall|k: nat| k < m ==> #[trigger] l.walk_prev(l.last_of(), k) == Some(l.handles()[l@.len() - 1 - k]),
        m == l@.len() ==> l.walk_prev(l.last_of(), m) is None,
    decreases m,
{
    if m > 0 {
        lemma_walk_prev(l, (m - 1) as nat);
        let hs = l.handles();
        let n = l@.len();
        if m >= 2 {
            assert(l.walk_prev(l.last_of(), (m - 2) as nat) == Some(hs[n - 1 - (m - 2)]));
            assert(hs.contains(hs[n - 1 - (m - 2)]));
        }
        assert(l.walk_prev(l.last_of(), (m - 1) as nat) == Some(hs[n - 1 - (m - 1)]));
        if m == n {
            assert(hs.contains(hs[0]));
        }
    }
}

} // verus!
