//! How the renderer sorts meshes into draw groups: meshes that share their
//! vertex data form a group; a group of one is drawn on its own, a group of
//! more is drawn as one instanced draw.
use std::collections::HashMap;
use std::collections::HashSet;
use vstd::prelude::*;

verus! {

broadcast use vstd::std_specs::hash::group_hash_axioms;

/// How many frames may be in flight at once; each has a submission slot.
pub const MAX_FRAMES_IN_FLIGHT: usize = 3;

/// The slot of the frame after the one in slot `current`: the next slot,
/// wrapping around after the last; the renderer starts at `usize::MAX`, so
/// that its first frame takes slot 0.
pub open spec fn next_slot(current: usize) -> usize {
    if current == usize::MAX {
        0
    } else {
        ((current + 1) % (MAX_FRAMES_IN_FLIGHT as int)) as usize
    }
}

/// See `next_slot`.
pub fn next_submission_slot(current: usize) -> (slot: usize)
    ensures
        slot == next_slot(current),
        slot < MAX_FRAMES_IN_FLIGHT,
{
    current.wrapping_add(1) % MAX_FRAMES_IN_FLIGHT
}

/// The slots of consecutive frames go round all the slots: the first frame
/// takes slot 0, and every slot comes back after `MAX_FRAMES_IN_FLIGHT`
/// frames.
pub proof fn lemma_slots_cycle(slot: usize)
    requires
        slot < MAX_FRAMES_IN_FLIGHT,
    ensures
        next_slot(usize::MAX) == 0,
        next_slot(slot) < MAX_FRAMES_IN_FLIGHT,
        next_slot(next_slot(next_slot(slot))) == slot,
{
}

/// The slot of the renderer's frame number `k` (counted from 0): its first
/// frame moves on from `usize::MAX`, every later one from the frame before.
pub open spec fn slot_of_frame(k: nat) -> usize
    decreases k,
{
    if k == 0 {
        next_slot(usize::MAX)
    } else {
        next_slot(slot_of_frame((k - 1) as nat))
    }
}

/// Frame `k` takes slot `k % MAX_FRAMES_IN_FLIGHT`, the slot of frame
/// `k - MAX_FRAMES_IN_FLIGHT`: a frame waits for the submission of the frame
/// that many frames before it, so no more than that many are in flight.
pub proof fn lemma_slot_of_frame(k: nat)
    ensures
        slot_of_frame(k) == k % (MAX_FRAMES_IN_FLIGHT as nat),
        k >= MAX_FRAMES_IN_FLIGHT ==> slot_of_frame(k) == slot_of_frame((k - MAX_FRAMES_IN_FLIGHT) as nat),
    decreases k,
{
    if k > 0 {
        lemma_slot_of_frame((k - 1) as nat);
    }
    if k >= MAX_FRAMES_IN_FLIGHT {
        lemma_slot_of_frame((k - MAX_FRAMES_IN_FLIGHT) as nat);
    }
}

/// The number of 32-bit indices in an index buffer of `bytes` bytes, as a
/// draw counts them: the size taken as a `u32` (its low 32 bits), divided by
/// four.
pub fn index_count(bytes: u64) -> (n: u32)
    ensures
        n == (bytes as u32) / 4,
{
    (bytes as u32) / 4
}

/// Which of a surface's formats to present with, given for each whether it is
/// sRGB: the first sRGB one, else the first one; `None` without formats.
pub fn pick_surface_format(srgb: &Vec<bool>) -> (r: Option<usize>)
    ensures
        srgb@.len() == 0 ==> r is None,
        srgb@.len() > 0 ==> r is Some,
        r matches Some(i) ==> i < srgb@.len() && (srgb@[i as int] || (i == 0 && forall|j: int|
            0 <= j < srgb@.len() ==> !#[trigger] srgb@[j])),
        r matches Some(i) ==> forall|j: int| 0 <= j < i ==> !#[trigger] srgb@[j],
{
    let mut i: usize = 0;
    while i < srgb.len()
        invariant
            i <= srgb@.len(),
            forall|j: int| 0 <= j < i ==> !#[trigger] srgb@[j],
        decreases srgb@.len() - i,
    {
        if srgb[i] {
            return Some(i);
        }
        i = i + 1;
    }
    if srgb.len() == 0 {
        None
    } else {
        Some(0)
    }
}

/// The queue as values: the group keys in the order the groups first
/// appeared, the meshes of each group (newest first), the groups drawn on
/// their own, and the instance count of each instanced group.
pub struct QueueModel {
    pub order: Seq<u64>,
    pub members: Map<u64, Seq<u64>>,
    pub independent: Set<u64>,
    pub instanced: Map<u64, usize>,
}

/// What the caller does after a mesh joined the queue.
#[derive(PartialEq, Eq, Structural, Clone, Copy, Debug)]
pub enum QueueAction {
    /// The mesh is the only one of its group and is drawn on its own.
    DrawIndependently,
    /// The group just reached two meshes: a new instanced render takes the
    /// older mesh `older` (when it still lives) and then the new one, and the
    /// group is no longer drawn on its own.
    BecomeInstanced { older: u64 },
    /// The mesh joins its group's instanced render, which is made first when
    /// `created` is set.
    JoinInstanced { created: bool },
}

/// One draw of the frame.
#[derive(PartialEq, Eq, Structural, Clone, Copy, Debug)]
pub enum DrawCommand {
    /// One instanced draw of the group `key` with `instances` instances.
    Instanced { key: u64, instances: usize },
    /// One draw per mesh of the group `key`.
    Independent { key: u64 },
}

/// Meshes grouped by the key of their shared vertex data.
pub struct RenderQueue {
    order: Vec<u64>,
    members: HashMap<u64, Vec<u64>>,
    independent: HashSet<u64>,
    instanced: HashMap<u64, usize>,
}

impl View for RenderQueue {
    type V = QueueModel;

    closed spec fn view(&self) -> QueueModel {
        QueueModel {
            order: self.order@,
            members: self.members@.map_values(|v: Vec<u64>| v@),
            independent: self.independent@,
            instanced: self.instanced@,
        }
    }
}

/// The invariant of the queue: each group appears once in the order, every
/// group has a mesh, every key drawn on its own or instanced is a group, and
/// an instanced group has at least two meshes and between one and as many
/// instances as meshes.
pub open spec fn queue_wf(m: QueueModel) -> bool {
    &&& m.order.no_duplicates()
    &&& m.order.to_set() == m.members.dom()
    &&& forall|k: u64| #[trigger] m.members.contains_key(k) ==> m.members[k].len() >= 1
    &&& forall|k: u64| #[trigger] m.independent.contains(k) ==> m.members.contains_key(k)
    &&& forall|k: u64|
        #[trigger] m.instanced.contains_key(k) ==> m.members.contains_key(k) && 2
            <= m.members[k].len() && 1 <= m.instanced[k] <= m.members[k].len()
}

/// The meshes of group `key`, newest first (none for an unknown key).
pub open spec fn members_of(m: QueueModel, key: u64) -> Seq<u64> {
    if m.members.contains_key(key) {
        m.members[key]
    } else {
        Seq::empty()
    }
}

/// A mesh can join group `key` unless that group holds one mesh that is no
/// longer drawn on its own (its only mesh left the queue): the group would
/// then become instanced without a draw of its own to give up.
pub open spec fn can_add(m: QueueModel, key: u64) -> bool {
    members_of(m, key).len() == 1 ==> m.independent.contains(key)
}

/// The queue after mesh `mesh` joined group `key`; `older_alive` tells
/// whether the group's older mesh still lives when the group becomes
/// instanced.
pub open spec fn added(m: QueueModel, key: u64, mesh: u64, older_alive: bool) -> QueueModel {
    let new_members = seq![mesh] + members_of(m, key);
    let order = if m.members.contains_key(key) {
        m.order
    } else {
        m.order.push(key)
    };
    let members = m.members.insert(key, new_members);
    let base: int = if m.instanced.contains_key(key) {
        m.instanced[key] as int
    } else {
        0
    };
    if new_members.len() > 1 {
        if new_members.len() == 2 {
            QueueModel {
                order,
                members,
                independent: m.independent.remove(key),
                instanced: m.instanced.insert(
                    key,
                    (base + if older_alive {
                        2int
                    } else {
                        1int
                    }) as usize,
                ),
            }
        } else {
            QueueModel {
                order,
                members,
                independent: m.independent,
                instanced: m.instanced.insert(key, (base + 1) as usize),
            }
        }
    } else {
        QueueModel { order, members, independent: m.independent.insert(key), instanced: m.instanced }
    }
}

/// The action that goes with `added(m, key, mesh, older_alive)`.
pub open spec fn add_action(m: QueueModel, key: u64) -> QueueAction {
    let n = members_of(m, key).len();
    if n == 0 {
        QueueAction::DrawIndependently
    } else if n == 1 {
        QueueAction::BecomeInstanced { older: members_of(m, key)[0] }
    } else {
        QueueAction::JoinInstanced { created: !m.instanced.contains_key(key) }
    }
}

/// The queue after a mesh of group `key` left it: the group no longer draws
/// on its own, its instanced render loses an instance, and a group whose
/// instanced render lost its last instance is drawn on its own again. The
/// group keeps its meshes.
pub open spec fn removed(m: QueueModel, key: u64) -> QueueModel {
    let independent = m.independent.remove(key);
    if m.instanced.contains_key(key) {
        if m.instanced[key] <= 1 {
            QueueModel {
                order: m.order,
                members: m.members,
                independent: independent.insert(key),
                instanced: m.instanced.remove(key),
            }
        } else {
            QueueModel {
                order: m.order,
                members: m.members,
                independent,
                instanced: m.instanced.insert(key, (m.instanced[key] - 1) as usize),
            }
        }
    } else {
        QueueModel { order: m.order, members: m.members, independent, instanced: m.instanced }
    }
}

/// The draw of group `key`: instanced when it has an instanced render, else
/// one draw per mesh when it is drawn on its own, else none.
pub open spec fn draw_of(m: QueueModel, key: u64) -> Option<DrawCommand> {
    if m.instanced.contains_key(key) {
        Some(DrawCommand::Instanced { key, instances: m.instanced[key] })
    } else if m.independent.contains(key) {
        Some(DrawCommand::Independent { key })
    } else {
        None
    }
}

/// The draws of the first `n` groups, in the order the groups appeared.
pub open spec fn draws_upto(m: QueueModel, n: int) -> Seq<DrawCommand>
    decreases n,
{
    if n <= 0 {
        Seq::empty()
    } else {
        let prev = draws_upto(m, n - 1);
        match draw_of(m, m.order[n - 1]) {
            Some(d) => prev.push(d),
            None => prev,
        }
    }
}

impl RenderQueue {
    #[verifier::type_invariant]
    spec fn inv(self) -> bool {
        queue_wf(self@)
    }

    /// An empty queue.
    pub fn new() -> (q: Self)
        ensures
            q@.order == Seq::<u64>::empty(),
            q@.members == Map::<u64, Seq<u64>>::empty(),
            q@.independent == Set::<u64>::empty(),
            q@.instanced == Map::<u64, usize>::empty(),
            queue_wf(q@),
    {
        let order: Vec<u64> = Vec::new();
        let members: HashMap<u64, Vec<u64>> = HashMap::new();
        let independent: HashSet<u64> = HashSet::new();
        let instanced: HashMap<u64, usize> = HashMap::new();
        assert(members@.map_values(|v: Vec<u64>| v@) =~= Map::<u64, Seq<u64>>::empty());
        assert(order@.to_set() =~= Set::<u64>::empty());
        RenderQueue { order, members, independent, instanced }
    }

    /// The number of groups.
    pub fn group_count(&self) -> (n: usize)
        ensures
            n == self@.members.dom().len(),
    {
        proof {
            use_type_invariant(self);
            self@.order.unique_seq_to_set();
        }
        self.order.len()
    }

    /// The number of groups drawn on their own.
    pub fn independent_count(&self) -> (n: usize)
        ensures
            n == self@.independent.len(),
    {
        self.independent.len()
    }

    /// The number of instanced groups.
    pub fn instanced_count(&self) -> (n: usize)
        ensures
            n == self@.instanced.dom().len(),
    {
        self.instanced.len()
    }

    /// The group keys, in the order the groups appeared.
    pub fn keys(&self) -> (r: &Vec<u64>)
        ensures
            r@ == self@.order,
    {
        &self.order
    }

    /// The meshes of group `key`, newest first.
    pub fn members(&self, key: u64) -> (r: Vec<u64>)
        ensures
            r@ == members_of(self@, key),
    {
        match self.members.get(&key) {
            Some(v) => {
                let mut r: Vec<u64> = Vec::new();
                let mut i: usize = 0;
                while i < v.len()
                    invariant
                        i <= v@.len(),
                        r@ == v@.subrange(0, i as int),
                    decreases v@.len() - i,
                {
                    r.push(v[i]);
                    i = i + 1;
                }
                assert(r@ =~= v@);
                r
            },
            None => Vec::new(),
        }
    }

    /// How many meshes group `key` has.
    pub fn group_len(&self, key: u64) -> (n: usize)
        ensures
            n == members_of(self@, key).len(),
    {
        match self.members.get(&key) {
            Some(v) => v.len(),
            None => 0,
        }
    }

    /// Whether group `key` is drawn on its own.
    pub fn is_independent(&self, key: u64) -> (r: bool)
        ensures
            r == self@.independent.contains(key),
    {
        self.independent.contains(&key)
    }

    /// The instance count of group `key`, when it is instanced.
    pub fn instance_count(&self, key: u64) -> (r: Option<usize>)
        ensures
            r == (if self@.instanced.contains_key(key) {
                Some(self@.instanced[key])
            } else {
                None::<usize>
            }),
    {
        match self.instanced.get(&key) {
            Some(c) => Some(*c),
            None => None,
        }
    }

    /// Whether a mesh can join group `key` (see `can_add`).
    pub fn accepts(&self, key: u64) -> (r: bool)
        ensures
            r == can_add(self@, key),
    {
        let n = self.group_len(key);
        n != 1 || self.is_independent(key)
    }

    /// Mesh `mesh` joins group `key`. `older_alive` tells whether the group's
    /// older mesh still lives, which matters when the group becomes instanced.
    pub fn add(&mut self, key: u64, mesh: u64, older_alive: bool) -> (action: QueueAction)
        requires
            can_add(old(self)@, key),
            members_of(old(self)@, key).len() < usize::MAX,
        ensures
            final(self)@ == added(old(self)@, key, mesh, older_alive),
            action == add_action(old(self)@, key),
            queue_wf(final(self)@),
    {
        proof {
            use_type_invariant(&*self);
        }
        let ghost m0 = self@;
        let action = self.classify(key);
        let mut taken = RenderQueue::new();
        std::mem::swap(self, &mut taken);
        let RenderQueue { mut order, mut members, mut independent, mut instanced } = taken;
        let ghost d0 = members@.dom();
        assert(m0.members.dom() =~= d0);
        let existing = members.remove(&key);
        let mut list: Vec<u64> = match existing {
            Some(v) => v,
            None => {
                order.push(key);
                Vec::new()
            },
        };
        proof {
            if !m0.members.contains_key(key) {
                assert(!m0.order.contains(key)) by {
                    if m0.order.contains(key) {
                        assert(m0.order.to_set().contains(key));
                    }
                }
            }
        }
        list.insert(0, mesh);
        let n = list.len();
        assert(list@ =~= seq![mesh] + members_of(m0, key));
        members.insert(key, list);
        if n > 1 {
            let base: usize = match instanced.remove(&key) {
                Some(c) => c,
                None => 0,
            };
            if n == 2 {
                let count: usize = if older_alive {
                    base + 2
                } else {
                    base + 1
                };
                instanced.insert(key, count);
                independent.remove(&key);
            } else {
                instanced.insert(key, base + 1);
            }
        } else {
            independent.insert(key);
        }
        let ghost m1 = added(m0, key, mesh, older_alive);
        let ghost mv = QueueModel {
            order: order@,
            members: members@.map_values(|v: Vec<u64>| v@),
            independent: independent@,
            instanced: instanced@,
        };
        proof {
            assert(members@.dom() =~= d0.insert(key));
            assert(mv.members.dom() =~= members@.dom());
            if d0.contains(key) {
                assert(order@ == m0.order);
            } else {
                assert(order@ == m0.order.push(key));
                assert forall|x: u64| order@.to_set().contains(x) <==> m0.order.to_set().insert(
                    key,
                ).contains(x) by {
                    if order@.to_set().contains(x) {
                        let i = choose|i: int| 0 <= i < order@.len() && order@[i] == x;
                        if i < m0.order.len() {
                            assert(m0.order[i] == x);
                            assert(m0.order.contains(x));
                        }
                    }
                    if m0.order.to_set().contains(x) {
                        let i = choose|i: int| 0 <= i < m0.order.len() && m0.order[i] == x;
                        assert(order@[i] == x);
                    }
                    if x == key {
                        assert(order@[order@.len() - 1] == key);
                    }
                }
            }
            assert(mv.members =~= m1.members);
            assert(mv.independent =~= m1.independent);
            assert(mv.instanced =~= m1.instanced);
            assert(mv.order =~= m1.order);
            assert(mv.order.to_set() =~= mv.members.dom());
            if !d0.contains(key) {
                assert(!m0.order.contains(key)) by {
                    if m0.order.contains(key) {
                        assert(m0.order.to_set().contains(key));
                    }
                }
            }
            assert(mv.order.no_duplicates());
            assert forall|k: u64| #[trigger] mv.members.contains_key(k) implies mv.members[k].len()
                >= 1 by {
                if k != key {
                    assert(m0.members.contains_key(k));
                }
            }
            assert forall|k: u64| #[trigger] mv.independent.contains(k) implies mv.members.contains_key(
                k,
            ) by {
                if k != key {
                    assert(m0.independent.contains(k));
                }
            }
            assert forall|k: u64| #[trigger] mv.instanced.contains_key(k) implies mv.members.contains_key(
                k,
            ) && 2 <= mv.members[k].len() && 1 <= mv.instanced[k] <= mv.members[k].len() by {
                if k != key {
                    assert(m0.instanced.contains_key(k));
                }
            }
            assert(queue_wf(mv));
        }
        *self = RenderQueue { order, members, independent, instanced };
        action
    }

    /// The action that `add` answers for group `key`.
    fn classify(&self, key: u64) -> (action: QueueAction)
        ensures
            action == add_action(self@, key),
    {
        match self.members.get(&key) {
            None => QueueAction::DrawIndependently,
            Some(v) => {
                if v.len() == 0 {
                    QueueAction::DrawIndependently
                } else if v.len() == 1 {
                    QueueAction::BecomeInstanced { older: v[0] }
                } else {
                    QueueAction::JoinInstanced { created: !self.instanced.contains_key(&key) }
                }
            },
        }
    }

    /// A mesh of group `key` left the queue.
    pub fn remove(&mut self, key: u64)
        ensures
            final(self)@ == removed(old(self)@, key),
            queue_wf(final(self)@),
    {
        proof {
            use_type_invariant(&*self);
        }
        let ghost m0 = self@;
        let mut taken = RenderQueue::new();
        std::mem::swap(self, &mut taken);
        let RenderQueue { order, members, mut independent, mut instanced } = taken;
        independent.remove(&key);
        match instanced.remove(&key) {
            Some(c) => {
                if c <= 1 {
                    independent.insert(key);
                } else {
                    instanced.insert(key, c - 1);
                }
            },
            None => {},
        }
        let ghost m1 = removed(m0, key);
        proof {
            assert(independent@ =~= m1.independent);
            assert(instanced@ =~= m1.instanced);
        }
        *self = RenderQueue { order, members, independent, instanced };
    }

    /// The draws of a frame: one per group, in the order the groups appeared.
    pub fn draw_plan(&self) -> (plan: Vec<DrawCommand>)
        ensures
            plan@ == draws_upto(self@, self@.order.len() as int),
    {
        let mut plan: Vec<DrawCommand> = Vec::new();
        let mut i: usize = 0;
        while i < self.order.len()
            invariant
                i <= self@.order.len(),
                plan@ == draws_upto(self@, i as int),
            decreases self@.order.len() - i,
        {
            let key = self.order[i];
            match self.instanced.get(&key) {
                Some(c) => {
                    plan.push(DrawCommand::Instanced { key, instances: *c });
                },
                None => {
                    if self.independent.contains(&key) {
                        plan.push(DrawCommand::Independent { key });
                    }
                },
            }
            i = i + 1;
        }
        plan
    }
}

/// A mesh that starts a group is drawn on its own.
pub proof fn lemma_first_mesh_independent(m: QueueModel, key: u64, mesh: u64, older_alive: bool)
    requires
        queue_wf(m),
        !m.members.contains_key(key),
    ensures
        members_of(added(m, key, mesh, older_alive), key) == seq![mesh],
        draw_of(added(m, key, mesh, older_alive), key) == Some((DrawCommand::Independent { key })),
        add_action(m, key) == QueueAction::DrawIndependently,
{
    assert(members_of(m, key) =~= Seq::<u64>::empty());
    assert(seq![mesh] + Seq::<u64>::empty() =~= seq![mesh]);
}

/// A second mesh with the same vertex data turns its group into one
/// instanced draw of both meshes, no longer drawn on its own.
pub proof fn lemma_second_mesh_instanced(m: QueueModel, key: u64, mesh: u64)
    requires
        queue_wf(m),
        members_of(m, key).len() == 1,
        m.independent.contains(key),
    ensures
        draw_of(added(m, key, mesh, true), key) == Some((DrawCommand::Instanced { key, instances: 2 })),
        !added(m, key, mesh, true).independent.contains(key),
        add_action(m, key) == (QueueAction::BecomeInstanced { older: members_of(m, key)[0] }),
{
}

/// A mesh that joins an instanced group and then leaves it gives the group
/// back its instance count.
pub proof fn lemma_join_then_leave(m: QueueModel, key: u64, mesh: u64, older_alive: bool)
    requires
        queue_wf(m),
        2 <= members_of(m, key).len() < usize::MAX,
    ensures
        removed(added(m, key, mesh, older_alive), key).instanced == m.instanced,
{
    let a = added(m, key, mesh, older_alive);
    if m.instanced.contains_key(key) {
        assert(a.instanced[key] == m.instanced[key] + 1);
        assert(removed(a, key).instanced =~= m.instanced);
    } else {
        assert(a.instanced[key] == 1);
        assert(removed(a, key).instanced =~= m.instanced);
    }
}

/// Adding a mesh to one group or removing one from it leaves the meshes and
/// the draw of every other group as they were.
pub proof fn lemma_other_groups_untouched(m: QueueModel, key: u64, mesh: u64, older_alive: bool, other: u64)
    requires
        other != key,
    ensures
        members_of(added(m, key, mesh, older_alive), other) == members_of(m, other),
        draw_of(added(m, key, mesh, older_alive), other) == draw_of(m, other),
        members_of(removed(m, key), other) == members_of(m, other),
        draw_of(removed(m, key), other) == draw_of(m, other),
{
}

/// The queue before any mesh joined it.
pub open spec fn empty_queue() -> QueueModel {
    QueueModel {
        order: Seq::empty(),
        members: Map::empty(),
        independent: Set::empty(),
        instanced: Map::empty(),
    }
}

/// The queue after the meshes `adds` (each a group key and a mesh) joined
/// an empty queue in turn, none of them having left.
pub open spec fn after_adds(adds: Seq<(u64, u64)>) -> QueueModel
    decreases adds.len(),
{
    if adds.len() == 0 {
        empty_queue()
    } else {
        added(after_adds(adds.drop_last()), adds.last().0, adds.last().1, true)
    }
}

/// The meshes among `adds` that joined group `key`, newest first.
pub open spec fn meshes_added(adds: Seq<(u64, u64)>, key: u64) -> Seq<u64>
    decreases adds.len(),
{
    if adds.len() == 0 {
        Seq::empty()
    } else if adds.last().0 == key {
        seq![adds.last().1] + meshes_added(adds.drop_last(), key)
    } else {
        meshes_added(adds.drop_last(), key)
    }
}

/// Every add of `adds` met what `RenderQueue::add` asks of the queue it
/// found.
pub open spec fn all_accepted(adds: Seq<(u64, u64)>) -> bool
    decreases adds.len(),
{
    adds.len() == 0 || {
        let q = after_adds(adds.drop_last());
        &&& all_accepted(adds.drop_last())
        &&& can_add(q, adds.last().0)
        &&& members_of(q, adds.last().0).len() < usize::MAX
    }
}

/// While no mesh leaves the queue, every add is accepted and the groups are
/// exactly the meshes with the same key: a group of one mesh is drawn on its
/// own, a group of two or more is one instanced draw with one instance per
/// mesh, and meshes of different keys are never grouped together.
pub proof fn lemma_grouping_without_removals(adds: Seq<(u64, u64)>)
    requires
        adds.len() < usize::MAX,
    ensures
        all_accepted(adds),
        queue_wf(after_adds(adds)),
        forall|key: u64| #[trigger] members_of(after_adds(adds), key) == meshes_added(adds, key),
        forall|key: u64| #[trigger] after_adds(adds).independent.contains(key) <==> meshes_added(adds, key).len() == 1,
        forall|key: u64| #[trigger] after_adds(adds).instanced.contains_key(key) <==> meshes_added(adds, key).len() >= 2,
        forall|key: u64| meshes_added(adds, key).len() >= 2 ==> #[trigger] draw_of(after_adds(adds), key) == Some(
            DrawCommand::Instanced { key, instances: meshes_added(adds, key).len() as usize },
        ),
        forall|key: u64| meshes_added(adds, key).len() == 1 ==> #[trigger] draw_of(after_adds(adds), key) == Some(
            DrawCommand::Independent { key },
        ),
        forall|key: u64| #[trigger] meshes_added(adds, key).len() <= adds.len(),
    decreases adds.len(),
{
    let q = after_adds(adds);
    if adds.len() == 0 {
        assert forall|key: u64| #[trigger] members_of(q, key) == meshes_added(adds, key) by {
            assert(members_of(q, key) =~= Seq::<u64>::empty());
        }
        assert(q.order.to_set() =~= q.members.dom());
    } else {
        let prev = adds.drop_last();
        lemma_grouping_without_removals(prev);
        let p = after_adds(prev);
        let (k, mesh) = adds.last();
        assert(q == added(p, k, mesh, true));
        assert(members_of(p, k) == meshes_added(prev, k));
        assert forall|key: u64| #[trigger] members_of(q, key) == meshes_added(adds, key) by {
            if key != k {
                lemma_other_groups_untouched(p, k, mesh, true, key);
            }
        }
        assert forall|key: u64| #[trigger] meshes_added(adds, key).len() <= adds.len() by {
            assert(meshes_added(prev, key).len() <= prev.len());
        }
        assert forall|key: u64| #[trigger] q.independent.contains(key) <==> meshes_added(adds, key).len() == 1 by {
            assert(p.independent.contains(key) <==> meshes_added(prev, key).len() == 1);
        }
        assert forall|key: u64| #[trigger] q.instanced.contains_key(key) <==> meshes_added(adds, key).len() >= 2 by {
            assert(p.instanced.contains_key(key) <==> meshes_added(prev, key).len() >= 2);
        }
        assert forall|key: u64| meshes_added(adds, key).len() >= 2 implies #[trigger] draw_of(q, key) == Some(
            DrawCommand::Instanced { key, instances: meshes_added(adds, key).len() as usize },
        ) by {
            assert(meshes_added(prev, key).len() >= 2 ==> draw_of(p, key) == Some(
                DrawCommand::Instanced { key, instances: meshes_added(prev, key).len() as usize },
            ));
            assert(p.instanced.contains_key(key) <==> meshes_added(prev, key).len() >= 2);
            assert(meshes_added(adds, key).len() <= adds.len());
        }
        assert forall|key: u64| meshes_added(adds, key).len() == 1 implies #[trigger] draw_of(q, key) == Some(
            DrawCommand::Independent { key },
        ) by {
            assert(q.instanced.contains_key(key) <==> meshes_added(adds, key).len() >= 2);
        }
        assert(q.order.to_set() =~= q.members.dom()) by {
            assert(p.order.to_set() == p.members.dom());
            assert forall|x: u64| #[trigger] q.order.contains(x) <==> q.members.dom().contains(x) by {
                assert(p.order.to_set().contains(x) <==> p.order.contains(x));
                if p.members.contains_key(k) {
                    assert(q.order == p.order);
                } else {
                    assert(q.order == p.order.push(k));
                    if x == k {
                        assert(q.order[p.order.len() as int] == k);
                    } else if q.order.contains(x) {
                        let j = choose|j: int| 0 <= j < q.order.len() && q.order[j] == x;
                        assert(p.order[j] == x);
                    } else if p.order.contains(x) {
                        let j = choose|j: int| 0 <= j < p.order.len() && p.order[j] == x;
                        assert(q.order[j] == x);
                    }
                }
            }
        }
        assert(q.order.no_duplicates()) by {
            if !p.members.contains_key(k) {
                assert(!p.order.to_set().contains(k));
                assert(q.order == p.order.push(k));
                assert forall|a: int, b: int| 0 <= a < b < q.order.len() implies q.order[a] != q.order[b] by {
                    if b == p.order.len() {
                        assert(p.order.contains(p.order[a]));
                    }
                }
            }
        }
    }
}

} // verus!
