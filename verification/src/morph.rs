//! A/B morph: one global position, per-effect endpoints.
//!
//! Every effect owns two parameter poses, A and B, keyed to its stable graph
//! identity (the node id), not to its slot position. The global morph position
//! crossfades the whole rig between them.
//!
//! Because endpoints ride the effect instance and are seeded to the current
//! sound the first time an effect appears, changing the chain never desyncs the
//! morph: a new effect joins immediately, sitting still until it is given a
//! distinct B, and reordering or removing effects moves or drops the endpoints
//! that travel with them.
//!
//! Authoring is park-and-edit: focus A (or B) to park the rig at that pose and
//! record every knob turned into it; leave focus to perform.
//!
//! The live rig comes in as a list of slots, and what is to be written to it
//! goes out as a list of writes: the interpolation itself is the caller's.
use std::collections::HashMap;
use std::collections::HashSet;
use crate::bits::{all_same, bits_all_eq, bits_lt, bits_unit_clamp, is_nan, lt, same, unit_clamped};
use crate::patch::{BITS_HALF, BITS_ONE, BITS_ZERO, Bits};
use crate::seqs::push_contains_iff;
use vstd::prelude::*;
use vstd::std_specs::hash::group_hash_axioms;

verus! {

/// Which pose a morph edit writes to.
#[derive(Clone, Copy, PartialEq, Eq, Debug, Structural)]
pub enum MorphEnd {
    /// The A pose (position 0).
    A,
    /// The B pose (position 1).
    B,
}

/// One effect's A and B endpoints: a value per parameter, and bypass per pose.
#[derive(Debug)]
pub struct Endpoints {
    effect_id: String,
    a: Vec<Bits>,
    b: Vec<Bits>,
    bypass_a: bool,
    bypass_b: bool,
}

/// A slot of the live rig, or a single effect's pose in slot order.
#[derive(Clone, Debug, PartialEq, Eq)]
pub struct SlotSnapshot {
    /// Registry effect id.
    pub effect_id: String,
    /// Parameter values in index order.
    pub values: Vec<Bits>,
    /// Bypass state.
    pub bypassed: bool,
}

/// A whole-rig pose in slot order (all of A, or all of B).
#[derive(Clone, Debug, PartialEq, Eq)]
pub struct MorphSnapshot {
    /// One entry per effect slot, in chain order.
    pub slots: Vec<SlotSnapshot>,
}

/// What morphing writes to one slot: parameter `p` is to become the
/// interpolation between the two values of entry `p`.
#[derive(Debug, PartialEq, Eq)]
pub struct SlotWrite {
    /// Slot index.
    pub slot: usize,
    /// The A and the B value of each parameter to be written.
    pub params: Vec<(Bits, Bits)>,
    /// Bypass state to be set.
    pub bypassed: bool,
}

/// Per-effect A/B morph, swept by one global position.
#[derive(Debug)]
pub struct MorphState {
    endpoints: HashMap<usize, Endpoints>,
    locked: HashSet<usize>,
    /// Global crossfade position: 0 is full A, 1 is full B.
    pub t: Bits,
    edit: Option<MorphEnd>,
}

/// The mathematical value of some [`Endpoints`].
#[verifier::ext_equal]
pub struct EndpointsModel {
    pub effect_id: Seq<char>,
    pub a: Seq<Bits>,
    pub b: Seq<Bits>,
    pub bypass_a: bool,
    pub bypass_b: bool,
}

/// The mathematical value of a [`SlotSnapshot`].
#[verifier::ext_equal]
pub struct SlotModel {
    pub effect_id: Seq<char>,
    pub values: Seq<Bits>,
    pub bypassed: bool,
}

/// The mathematical value of a [`SlotWrite`].
#[verifier::ext_equal]
pub struct WriteModel {
    pub slot: int,
    pub params: Seq<(Bits, Bits)>,
    pub bypassed: bool,
}

/// The mathematical value of a [`MorphState`].
#[verifier::ext_equal]
pub struct MorphModel {
    /// Endpoints keyed by stable effect identity.
    pub endpoints: Map<usize, EndpointsModel>,
    /// Effects excluded from the morph.
    pub locked: Set<usize>,
    /// Crossfade position.
    pub t: Bits,
    /// The pose being sculpted, or none while performing.
    pub edit: Option<MorphEnd>,
}

impl View for Endpoints {
    type V = EndpointsModel;

    closed spec fn view(&self) -> EndpointsModel {
        EndpointsModel {
            effect_id: self.effect_id@,
            a: self.a@,
            b: self.b@,
            bypass_a: self.bypass_a,
            bypass_b: self.bypass_b,
        }
    }
}

impl View for SlotSnapshot {
    type V = SlotModel;

    open spec fn view(&self) -> SlotModel {
        SlotModel { effect_id: self.effect_id@, values: self.values@, bypassed: self.bypassed }
    }
}

impl View for SlotWrite {
    type V = WriteModel;

    open spec fn view(&self) -> WriteModel {
        WriteModel { slot: self.slot as int, params: self.params@, bypassed: self.bypassed }
    }
}

impl View for MorphState {
    type V = MorphModel;

    closed spec fn view(&self) -> MorphModel {
        MorphModel {
            endpoints: endpoints_view(self.endpoints@),
            locked: self.locked@,
            t: self.t,
            edit: self.edit,
        }
    }
}

/// The values of a map of endpoints.
pub open spec fn endpoints_view(m: Map<usize, Endpoints>) -> Map<usize, EndpointsModel> {
    Map::new(|k: usize| m.contains_key(k), |k: usize| m[k]@)
}

/// The values of some slots.
pub open spec fn slots_view(slots: Seq<SlotSnapshot>) -> Seq<SlotModel> {
    Seq::new(slots.len(), |i: int| slots[i]@)
}

/// The values of some writes.
pub open spec fn writes_view(writes: Seq<SlotWrite>) -> Seq<WriteModel> {
    Seq::new(writes.len(), |i: int| writes[i]@)
}

/// A slot of the rig. One that the rig does not have is empty.
pub open spec fn live_at(rig: Seq<SlotModel>, slot: int) -> SlotModel {
    if 0 <= slot < rig.len() {
        rig[slot]
    } else {
        SlotModel { effect_id: Seq::empty(), values: Seq::empty(), bypassed: false }
    }
}

/// The position at which a pose is shown untouched.
pub open spec fn position_of(end: MorphEnd) -> Bits {
    match end {
        MorphEnd::A => BITS_ZERO,
        MorphEnd::B => BITS_ONE,
    }
}

/// Endpoints that sit still at the current sound.
pub open spec fn flat(live: SlotModel) -> EndpointsModel {
    EndpointsModel {
        effect_id: live.effect_id,
        a: live.values,
        b: live.values,
        bypass_a: live.bypassed,
        bypass_b: live.bypassed,
    }
}

/// Endpoints that do not belong to what is in the slot.
pub open spec fn stale(e: EndpointsModel, live: SlotModel) -> bool {
    e.effect_id != live.effect_id || e.a.len() != live.values.len() || e.b.len()
        != live.values.len()
}

/// The endpoints after the first `n` slots have been reconciled.
pub open spec fn synced(
    m: Map<usize, EndpointsModel>,
    order: Seq<usize>,
    rig: Seq<SlotModel>,
    n: nat,
) -> Map<usize, EndpointsModel>
    decreases n,
{
    if n == 0 {
        m
    } else {
        let before = synced(m, order, rig, (n - 1) as nat);
        let key = order[n - 1];
        let live = live_at(rig, n - 1);
        if before.contains_key(key) && !stale(before[key], live) {
            before
        } else {
            before.insert(key, flat(live))
        }
    }
}

/// A pose with the live values of the slot folded in.
pub open spec fn folded(pose: Seq<Bits>, live: Seq<Bits>) -> Seq<Bits> {
    Seq::new(
        pose.len(),
        |p: int|
            if p < live.len() {
                live[p]
            } else {
                pose[p]
            },
    )
}

/// Endpoints with the live slot written into one pose.
pub open spec fn posed(e: EndpointsModel, end: MorphEnd, live: SlotModel) -> EndpointsModel {
    match end {
        MorphEnd::A => EndpointsModel {
            a: folded(e.a, live.values),
            bypass_a: live.bypassed,
            ..e
        },
        MorphEnd::B => EndpointsModel {
            b: folded(e.b, live.values),
            bypass_b: live.bypassed,
            ..e
        },
    }
}

/// The endpoints after the first `n` slots have been written into one pose.
pub open spec fn pose_written(
    m: Map<usize, EndpointsModel>,
    end: MorphEnd,
    order: Seq<usize>,
    rig: Seq<SlotModel>,
    n: nat,
) -> Map<usize, EndpointsModel>
    decreases n,
{
    if n == 0 {
        m
    } else {
        let before = pose_written(m, end, order, rig, (n - 1) as nat);
        let key = order[n - 1];
        if before.contains_key(key) {
            before.insert(key, posed(before[key], end, live_at(rig, n - 1)))
        } else {
            before
        }
    }
}

/// How many parameters of a slot are written.
pub open spec fn written_params(e: EndpointsModel, live: SlotModel) -> nat {
    let n = if e.a.len() < e.b.len() {
        e.a.len()
    } else {
        e.b.len()
    };
    if n < live.values.len() {
        n
    } else {
        live.values.len()
    }
}

/// What morphing writes to a slot.
pub open spec fn slot_write(e: EndpointsModel, t: Bits, live: SlotModel, slot: int) -> WriteModel {
    WriteModel {
        slot,
        params: Seq::new(written_params(e, live), |p: int| (e.a[p], e.b[p])),
        bypassed: if lt(t, BITS_HALF) {
            e.bypass_a
        } else {
            e.bypass_b
        },
    }
}

/// What morphing writes to the first `n` slots, in slot order.
pub open spec fn writes_of(
    m: MorphModel,
    order: Seq<usize>,
    rig: Seq<SlotModel>,
    n: nat,
) -> Seq<WriteModel>
    decreases n,
{
    if n == 0 {
        Seq::empty()
    } else {
        let before = writes_of(m, order, rig, (n - 1) as nat);
        let key = order[n - 1];
        if m.locked.contains(key) || !m.endpoints.contains_key(key) {
            before
        } else {
            before.push(slot_write(m.endpoints[key], m.t, live_at(rig, n - 1), n - 1))
        }
    }
}

/// One pose of a slot: that of its effect, or the live slot where the effect is
/// not tracked. The effect id is the live one.
pub open spec fn pose_at(
    m: Map<usize, EndpointsModel>,
    end: MorphEnd,
    key: usize,
    live: SlotModel,
) -> SlotModel {
    if m.contains_key(key) {
        let e = m[key];
        match end {
            MorphEnd::A => SlotModel {
                effect_id: live.effect_id,
                values: e.a,
                bypassed: e.bypass_a,
            },
            MorphEnd::B => SlotModel {
                effect_id: live.effect_id,
                values: e.b,
                bypassed: e.bypass_b,
            },
        }
    } else {
        live
    }
}

/// One pose of the whole rig.
pub open spec fn pose_of(
    m: Map<usize, EndpointsModel>,
    end: MorphEnd,
    order: Seq<usize>,
    rig: Seq<SlotModel>,
) -> Seq<SlotModel> {
    Seq::new(order.len(), |i: int| pose_at(m, end, order[i], live_at(rig, i)))
}

/// Endpoints made of two poses of a slot.
pub open spec fn joined(a: SlotModel, b: SlotModel) -> EndpointsModel {
    EndpointsModel {
        effect_id: a.effect_id,
        a: a.values,
        b: b.values,
        bypass_a: a.bypassed,
        bypass_b: b.bypassed,
    }
}

/// The endpoints made of the first `n` slots of two poses.
pub open spec fn restored(
    order: Seq<usize>,
    a: Seq<SlotModel>,
    b: Seq<SlotModel>,
    n: nat,
) -> Map<usize, EndpointsModel>
    decreases n,
{
    if n == 0 {
        Map::empty()
    } else {
        let before = restored(order, a, b, (n - 1) as nat);
        if n - 1 < a.len() && n - 1 < b.len() {
            before.insert(order[n - 1], joined(a[n - 1], b[n - 1]))
        } else {
            before
        }
    }
}

/// Whether A and B differ.
pub open spec fn moves(e: EndpointsModel) -> bool {
    !all_same(e.a, e.b) || e.bypass_a != e.bypass_b
}

fn copy_bits(v: &Vec<Bits>) -> (r: Vec<Bits>)
    ensures
        r@ == v@,
{
    let r = v.clone();
    assert(r@ =~= v@);
    r
}

impl Endpoints {
    fn flat(live: &SlotSnapshot) -> (e: Self)
        ensures
            e@ == flat(live@),
    {
        Endpoints {
            effect_id: live.effect_id.clone(),
            a: copy_bits(&live.values),
            b: copy_bits(&live.values),
            bypass_a: live.bypassed,
            bypass_b: live.bypassed,
        }
    }

    fn none() -> (e: Self)
        ensures
            e@ == flat(live_at(Seq::empty(), 0)),
    {
        Endpoints {
            effect_id: String::new(),
            a: Vec::new(),
            b: Vec::new(),
            bypass_a: false,
            bypass_b: false,
        }
    }

    fn is_stale(&self, rig: &Vec<SlotSnapshot>, slot: usize) -> (r: bool)
        ensures
            r == stale(self@, live_at(slots_view(rig@), slot as int)),
    {
        if slot < rig.len() {
            let live = &rig[slot];
            self.effect_id != live.effect_id || self.a.len() != live.values.len() || self.b.len()
                != live.values.len()
        } else {
            let empty = String::new();
            self.effect_id != empty || self.a.len() != 0 || self.b.len() != 0
        }
    }
}

impl MorphState {
    /// A new, empty morph: no effects tracked, position 0, performing.
    pub fn new() -> (m: Self)
        ensures
            m@ == (MorphModel {
                endpoints: Map::empty(),
                locked: Set::empty(),
                t: BITS_ZERO,
                edit: None,
            }),
    {
        let m = MorphState {
            endpoints: HashMap::new(),
            locked: HashSet::new(),
            t: BITS_ZERO,
            edit: None,
        };
        assert(m@.endpoints =~= Map::empty());
        m
    }

    /// The pose currently focused for editing, if any.
    pub fn edit(&self) -> (r: Option<MorphEnd>)
        ensures
            r == self@.edit,
    {
        self.edit
    }

    /// Whether the given pose is the one currently focused.
    pub fn is_editing(&self, end: MorphEnd) -> (r: bool)
        ensures
            r == (self@.edit == Some(end)),
    {
        match self.edit {
            Some(e) => e == end,
            None => false,
        }
    }

    /// Reconcile the endpoints with the live chain.
    ///
    /// `order[slot]` is the identity of the effect in that chain slot. New
    /// effects are seeded flat, so they join the morph without moving; effects
    /// no longer present are dropped. An effect whose slot now holds a different
    /// effect type (id or parameter count changed) is reseeded.
    pub fn sync(&mut self, order: &Vec<usize>, rig: &Vec<SlotSnapshot>)
        ensures
            final(self)@ == (MorphModel {
                endpoints: synced(
                    old(self)@.endpoints.restrict(order@.to_set()),
                    order@,
                    slots_view(rig@),
                    order@.len(),
                ),
                locked: old(self)@.locked.intersect(order@.to_set()),
                ..old(self)@
            }),
    {
        broadcast use group_hash_axioms;

        self.retain(order);
        let ghost start = endpoints_view(self.endpoints@);
        let ghost live = slots_view(rig@);
        let mut slot: usize = 0;
        while slot < order.len()
            invariant
                slot <= order@.len(),
                live == slots_view(rig@),
                self@.endpoints == synced(start, order@, live, slot as nat),
                self.locked@ == old(self)@.locked.intersect(order@.to_set()),
                self.t == old(self).t,
                self.edit == old(self).edit,
            decreases order@.len() - slot,
        {
            let key: usize = order[slot];
            let needs_seed = match self.endpoints.get(&key) {
                None => true,
                Some(e) => e.is_stale(rig, slot),
            };
            if needs_seed {
                let seed = if slot < rig.len() {
                    Endpoints::flat(&rig[slot])
                } else {
                    Endpoints::none()
                };
                let ghost model = seed@;
                let ghost before = self.endpoints@;
                self.endpoints.insert(key, seed);
                assert(endpoints_view(self.endpoints@) =~= endpoints_view(before).insert(
                    key,
                    model,
                ));
            }
            slot = slot + 1;
        }
    }

    /// Drop what belongs to effects that are not in the chain.
    fn retain(&mut self, order: &Vec<usize>)
        ensures
            final(self)@ == (MorphModel {
                endpoints: old(self)@.endpoints.restrict(order@.to_set()),
                locked: old(self)@.locked.intersect(order@.to_set()),
                ..old(self)@
            }),
    {
        broadcast use group_hash_axioms;

        let mut endpoints: HashMap<usize, Endpoints> = HashMap::new();
        let mut locked: HashSet<usize> = HashSet::new();
        let ghost all = self.endpoints@;
        let mut i: usize = 0;
        while i < order.len()
            invariant
                i <= order@.len(),
                self.t == old(self).t,
                self.edit == old(self).edit,
                self.locked@ == old(self).locked@,
                all == old(self).endpoints@,
                endpoints@ == all.restrict(order@.take(i as int).to_set()),
                self.endpoints@ == all.remove_keys(order@.take(i as int).to_set()),
                locked@ == self.locked@.intersect(order@.take(i as int).to_set()),
            decreases order@.len() - i,
        {
            let key: usize = order[i];
            let ghost before = order@.take(i as int);
            let ghost now = order@.take(i as int + 1);
            assert(now =~= before.push(key));
            assert(now.to_set() =~= before.to_set().insert(key)) by {
                assert forall|k: usize| now.contains(k) <==> before.contains(k) || k == key by {
                    push_contains_iff(before, key, k);
                }
            }
            match self.endpoints.remove(&key) {
                Some(e) => {
                    endpoints.insert(key, e);
                },
                None => {},
            }
            assert(endpoints@ =~= all.restrict(now.to_set()));
            assert(self.endpoints@ =~= all.remove_keys(now.to_set()));
            if self.locked.contains(&key) {
                locked.insert(key);
            }
            assert(locked@ =~= self.locked@.intersect(now.to_set()));
            i = i + 1;
        }
        assert(order@.take(order@.len() as int) =~= order@);
        self.endpoints = endpoints;
        self.locked = locked;
        assert(self@.endpoints =~= old(self)@.endpoints.restrict(order@.to_set()));
    }

    /// What morphing writes to the rig at the current position: every parameter
    /// of a tracked effect becomes the interpolation of its endpoints, and its
    /// bypass snaps at the midpoint. Locked effects are left untouched.
    pub fn apply(&self, order: &Vec<usize>, rig: &Vec<SlotSnapshot>) -> (writes: Vec<SlotWrite>)
        ensures
            writes_view(writes@) == writes_of(
                self@,
                order@,
                slots_view(rig@),
                order@.len(),
            ),
    {
        broadcast use group_hash_axioms;

        let ghost live = slots_view(rig@);
        let mut writes: Vec<SlotWrite> = Vec::new();
        let mut slot: usize = 0;
        assert(writes_view(writes@) =~= Seq::empty());
        while slot < order.len()
            invariant
                slot <= order@.len(),
                live == slots_view(rig@),
                writes_view(writes@) == writes_of(self@, order@, live, slot as nat),
            decreases order@.len() - slot,
        {
            let key: usize = order[slot];
            let ghost before = writes_view(writes@);
            if !self.locked.contains(&key) {
                match self.endpoints.get(&key) {
                    Some(e) => {
                        let w = self.slot_write(e, rig, slot);
                        let ghost model = w@;
                        writes.push(w);
                        assert(writes_view(writes@) =~= before.push(model));
                    },
                    None => {},
                }
            }
            slot = slot + 1;
        }
        writes
    }

    fn slot_write(&self, e: &Endpoints, rig: &Vec<SlotSnapshot>, slot: usize) -> (w: SlotWrite)
        ensures
            w@ == slot_write(
                e@,
                self.t,
                live_at(slots_view(rig@), slot as int),
                slot as int,
            ),
    {
        let count: usize = if slot < rig.len() {
            rig[slot].values.len()
        } else {
            0
        };
        let most: usize = if e.a.len() < e.b.len() {
            e.a.len()
        } else {
            e.b.len()
        };
        let n: usize = if most < count {
            most
        } else {
            count
        };
        let mut params: Vec<(Bits, Bits)> = Vec::new();
        let mut p: usize = 0;
        while p < n
            invariant
                p <= n,
                n <= e.a@.len(),
                n <= e.b@.len(),
                params@.len() == p,
                forall|i: int| 0 <= i < p ==> #[trigger] params@[i] == (e.a@[i], e.b@[i]),
            decreases n - p,
        {
            params.push((e.a[p], e.b[p]));
            p = p + 1;
        }
        let bypassed = if bits_lt(self.t, BITS_HALF) {
            e.bypass_a
        } else {
            e.bypass_b
        };
        let w = SlotWrite { slot, params, bypassed };
        assert(w@.params =~= slot_write(
            e@,
            self.t,
            live_at(slots_view(rig@), slot as int),
            slot as int,
        ).params);
        w
    }

    /// Focus a pose: park the position at it, so that the rig shows that pose and
    /// later knob edits land in it. Gives what is to be written to the rig.
    pub fn park_edit(&mut self, end: MorphEnd, order: &Vec<usize>, rig: &Vec<SlotSnapshot>) -> (writes:
        Vec<SlotWrite>)
        ensures
            final(self)@ == (MorphModel {
                t: position_of(end),
                edit: Some(end),
                ..old(self)@
            }),
            writes_view(writes@) == writes_of(
                final(self)@,
                order@,
                slots_view(rig@),
                order@.len(),
            ),
    {
        self.edit = Some(end);
        self.t = end.position();
        self.apply(order, rig)
    }

    /// Grab the live rig into a pose, then focus it. The endpoint takes the live
    /// values, and the rig does not jump, since it already sounds like the pose.
    pub fn grab_edit(&mut self, end: MorphEnd, order: &Vec<usize>, rig: &Vec<SlotSnapshot>)
        ensures
            final(self)@ == (MorphModel {
                endpoints: pose_written(
                    old(self)@.endpoints,
                    end,
                    order@,
                    slots_view(rig@),
                    order@.len(),
                ),
                t: position_of(end),
                edit: Some(end),
                ..old(self)@
            }),
    {
        self.write_pose(end, order, rig);
        self.edit = Some(end);
        self.t = end.position();
    }

    /// Leave edit mode and perform at position `t`, held to its travel. Gives
    /// what is to be written to the rig.
    pub fn perform(&mut self, t: Bits, order: &Vec<usize>, rig: &Vec<SlotSnapshot>) -> (writes: Vec<
        SlotWrite,
    >)
        ensures
            final(self)@ == (MorphModel { t: unit_clamped(t), edit: None, ..old(self)@ }),
            writes_view(writes@) == writes_of(
                final(self)@,
                order@,
                slots_view(rig@),
                order@.len(),
            ),
    {
        self.edit = None;
        self.t = bits_unit_clamp(t);
        self.apply(order, rig)
    }

    /// While a pose is focused, fold the live rig into it. A no-op while
    /// performing, so performed interpolations never overwrite the endpoints.
    pub fn record(&mut self, order: &Vec<usize>, rig: &Vec<SlotSnapshot>)
        ensures
            final(self)@ == (match old(self)@.edit {
                Some(end) => MorphModel {
                    endpoints: pose_written(
                        old(self)@.endpoints,
                        end,
                        order@,
                        slots_view(rig@),
                        order@.len(),
                    ),
                    ..old(self)@
                },
                None => old(self)@,
            }),
    {
        match self.edit {
            Some(end) => self.write_pose(end, order, rig),
            None => {},
        }
    }

    /// Copy the live values (and bypass) into `end` for every effect.
    fn write_pose(&mut self, end: MorphEnd, order: &Vec<usize>, rig: &Vec<SlotSnapshot>)
        ensures
            final(self)@ == (MorphModel {
                endpoints: pose_written(
                    old(self)@.endpoints,
                    end,
                    order@,
                    slots_view(rig@),
                    order@.len(),
                ),
                ..old(self)@
            }),
    {
        broadcast use group_hash_axioms;

        let ghost live = slots_view(rig@);
        let mut slot: usize = 0;
        while slot < order.len()
            invariant
                slot <= order@.len(),
                live == slots_view(rig@),
                self@.endpoints == pose_written(
                    old(self)@.endpoints,
                    end,
                    order@,
                    live,
                    slot as nat,
                ),
                self.locked == old(self).locked,
                self.t == old(self).t,
                self.edit == old(self).edit,
            decreases order@.len() - slot,
        {
            let key: usize = order[slot];
            let ghost before = self.endpoints@;
            match self.endpoints.remove(&key) {
                Some(mut e) => {
                    e.take_pose(end, rig, slot);
                    let ghost model = e@;
                    self.endpoints.insert(key, e);
                    assert(endpoints_view(self.endpoints@) =~= endpoints_view(before).insert(
                        key,
                        model,
                    ));
                },
                None => {
                    assert(self.endpoints@ =~= before);
                },
            }
            slot = slot + 1;
        }
    }

    /// The A and the B value of one parameter of an effect, where both exist.
    pub fn endpoint_pair(&self, key: usize, param: usize) -> (r: Option<(Bits, Bits)>)
        ensures
            r == (if self@.endpoints.contains_key(key) && param < self@.endpoints[key].a.len()
                && param < self@.endpoints[key].b.len() {
                Some(
                    (
                        self@.endpoints[key].a[param as int],
                        self@.endpoints[key].b[param as int],
                    ),
                )
            } else {
                None
            }),
    {
        broadcast use group_hash_axioms;

        match self.endpoints.get(&key) {
            Some(e) => {
                if param < e.a.len() && param < e.b.len() {
                    Some((e.a[param], e.b[param]))
                } else {
                    None
                }
            },
            None => None,
        }
    }

    /// Whether any effect is being tracked at all.
    pub fn has_effects(&self) -> (r: bool)
        ensures
            r == !self@.endpoints.is_empty(),
    {
        broadcast use group_hash_axioms;

        let r = !self.endpoints.is_empty();
        proof {
            if r {
                let k = choose|k: usize| self.endpoints@.contains_key(k);
                assert(self.endpoints@.contains_key(k)) by {
                    if !self.endpoints@.contains_key(k) {
                        assert(self.endpoints@ =~= Map::empty());
                    }
                }
                assert(self@.endpoints.contains_key(k));
            } else {
                assert(self@.endpoints =~= Map::empty());
            }
        }
        r
    }

    /// Exclude or include an effect.
    pub fn set_locked(&mut self, key: usize, locked: bool)
        ensures
            final(self)@ == (MorphModel {
                locked: if locked {
                    old(self)@.locked.insert(key)
                } else {
                    old(self)@.locked.remove(key)
                },
                ..old(self)@
            }),
    {
        broadcast use group_hash_axioms;

        if locked {
            self.locked.insert(key);
        } else {
            self.locked.remove(&key);
        }
    }

    /// Whether an effect is excluded from the morph.
    pub fn is_locked(&self, key: usize) -> (r: bool)
        ensures
            r == self@.locked.contains(key),
    {
        broadcast use group_hash_axioms;

        self.locked.contains(&key)
    }
}

impl MorphEnd {
    /// The position at which this pose is shown untouched.
    pub fn position(self) -> (t: Bits)
        ensures
            t == position_of(self),
            self is A ==> t == 0,
            self is B ==> t == 0x3F80_0000,
    {
        match self {
            MorphEnd::A => BITS_ZERO,
            MorphEnd::B => BITS_ONE,
        }
    }
}

impl Endpoints {
    /// Fold the live slot into one pose.
    fn take_pose(&mut self, end: MorphEnd, rig: &Vec<SlotSnapshot>, slot: usize)
        ensures
            final(self)@ == posed(old(self)@, end, live_at(slots_view(rig@), slot as int)),
    {
        let ghost live = live_at(slots_view(rig@), slot as int);
        let bypassed: bool = if slot < rig.len() {
            rig[slot].bypassed
        } else {
            false
        };
        match end {
            MorphEnd::A => {
                let a = fold_live(&self.a, rig, slot);
                self.a = a;
                self.bypass_a = bypassed;
            },
            MorphEnd::B => {
                let b = fold_live(&self.b, rig, slot);
                self.b = b;
                self.bypass_b = bypassed;
            },
        }
    }
}

fn fold_live(pose: &Vec<Bits>, rig: &Vec<SlotSnapshot>, slot: usize) -> (r: Vec<Bits>)
    ensures
        r@ == folded(pose@, live_at(slots_view(rig@), slot as int).values),
{
    let count: usize = if slot < rig.len() {
        rig[slot].values.len()
    } else {
        0
    };
    let ghost live = live_at(slots_view(rig@), slot as int).values;
    let mut r: Vec<Bits> = Vec::new();
    let mut p: usize = 0;
    while p < pose.len()
        invariant
            p <= pose@.len(),
            live == live_at(slots_view(rig@), slot as int).values,
            count == live.len(),
            r@ == folded(pose@, live).take(p as int),
        decreases pose@.len() - p,
    {
        if p < count {
            r.push(rig[slot].values[p]);
        } else {
            r.push(pose[p]);
        }
        p = p + 1;
        assert(r@ =~= folded(pose@, live).take(p as int));
    }
    assert(r@ =~= folded(pose@, live));
    r
}

impl MorphState {
    /// Whether any effect has a distinct A and B: the morph does something.
    pub fn is_active(&self) -> (r: bool)
        ensures
            r == exists|k: usize|
                #[trigger] self@.endpoints.contains_key(k) && moves(self@.endpoints[k]),
    {
        broadcast use group_hash_axioms;

        let ghost all = self.endpoints@;
        for k in iter: self.endpoints.keys()
            invariant
                all == self.endpoints@,
                iter.seq().unref().to_set() == all.dom(),
                forall|i: int|
                    0 <= i < iter.index() ==> !moves(all[*#[trigger] iter.seq()[i]]@),
        {
            assert(iter.seq().unref()[iter.index()] == *k);
            assert(iter.seq().unref().contains(*k));
            assert(iter.seq().unref().to_set().contains(*k));
            match self.endpoints.get(k) {
                Some(e) => {
                    if !bits_all_eq(e.a.as_slice(), e.b.as_slice()) || e.bypass_a != e.bypass_b {
                        assert(self@.endpoints.contains_key(*k));
                        return true;
                    }
                },
                None => {},
            }
        }
        assert forall|k: usize| #[trigger] self@.endpoints.contains_key(k) implies !moves(
            self@.endpoints[k],
        ) by {
            assert(all.dom().contains(k));
        }
        false
    }
}

impl MorphState {
    /// Export one pose in slot order for a session save. An effect without a
    /// tracked endpoint falls back to its live values.
    pub fn snapshot(&self, end: MorphEnd, order: &Vec<usize>, rig: &Vec<SlotSnapshot>) -> (s:
        MorphSnapshot)
        ensures
            slots_view(s.slots@) == pose_of(self@.endpoints, end, order@, slots_view(rig@)),
    {
        broadcast use group_hash_axioms;

        let ghost live = slots_view(rig@);
        let ghost whole = pose_of(self@.endpoints, end, order@, live);
        let mut slots: Vec<SlotSnapshot> = Vec::new();
        let mut i: usize = 0;
        assert(slots_view(slots@) =~= whole.take(0));
        while i < order.len()
            invariant
                i <= order@.len(),
                live == slots_view(rig@),
                whole == pose_of(self@.endpoints, end, order@, live),
                slots_view(slots@) == whole.take(i as int),
            decreases order@.len() - i,
        {
            let key: usize = order[i];
            let ghost before = slots_view(slots@);
            let effect_id = if i < rig.len() {
                rig[i].effect_id.clone()
            } else {
                String::new()
            };
            let (values, bypassed) = match self.endpoints.get(&key) {
                Some(e) => match end {
                    MorphEnd::A => (copy_bits(&e.a), e.bypass_a),
                    MorphEnd::B => (copy_bits(&e.b), e.bypass_b),
                },
                None => if i < rig.len() {
                    (copy_bits(&rig[i].values), rig[i].bypassed)
                } else {
                    (Vec::new(), false)
                },
            };
            let slot = SlotSnapshot { effect_id, values, bypassed };
            let ghost model = slot@;
            assert(model =~= whole[i as int]);
            slots.push(slot);
            assert(slots_view(slots@) =~= before.push(model));
            i = i + 1;
            assert(slots_view(slots@) =~= whole.take(i as int));
        }
        assert(whole.take(i as int) =~= whole);
        MorphSnapshot { slots }
    }

    /// Rebuild the endpoints from two saved poses in slot order, keyed to the
    /// current effects. Clears locks and edit focus; the position stays.
    pub fn restore(&mut self, order: &Vec<usize>, a: &MorphSnapshot, b: &MorphSnapshot)
        ensures
            final(self)@ == (MorphModel {
                endpoints: restored(
                    order@,
                    slots_view(a.slots@),
                    slots_view(b.slots@),
                    order@.len(),
                ),
                locked: Set::empty(),
                edit: None,
                ..old(self)@
            }),
    {
        broadcast use group_hash_axioms;

        self.endpoints = HashMap::new();
        self.locked = HashSet::new();
        self.edit = None;
        let ghost av = slots_view(a.slots@);
        let ghost bv = slots_view(b.slots@);
        let mut i: usize = 0;
        assert(self@.endpoints =~= Map::empty());
        while i < order.len()
            invariant
                i <= order@.len(),
                av == slots_view(a.slots@),
                bv == slots_view(b.slots@),
                self@ == (MorphModel {
                    endpoints: restored(order@, av, bv, i as nat),
                    locked: Set::empty(),
                    edit: None,
                    ..old(self)@
                }),
            decreases order@.len() - i,
        {
            if i < a.slots.len() && i < b.slots.len() {
                let sa = &a.slots[i];
                let sb = &b.slots[i];
                let e = Endpoints {
                    effect_id: sa.effect_id.clone(),
                    a: copy_bits(&sa.values),
                    b: copy_bits(&sb.values),
                    bypass_a: sa.bypassed,
                    bypass_b: sb.bypassed,
                };
                let ghost model = e@;
                let ghost before = self.endpoints@;
                self.endpoints.insert(order[i], e);
                assert(endpoints_view(self.endpoints@) =~= endpoints_view(before).insert(
                    order@[i as int],
                    model,
                ));
            }
            i = i + 1;
        }
    }
}

impl Default for MorphState {
    fn default() -> (m: Self)
        ensures
            m@ == (MorphModel {
                endpoints: Map::empty(),
                locked: Set::empty(),
                t: BITS_ZERO,
                edit: None,
            }),
    {
        MorphState::new()
    }
}

// Laws.

/// Reconciling the first `n` of distinct effects touches none of the others.
proof fn sync_leaves_later_alone(
    m: Map<usize, EndpointsModel>,
    order: Seq<usize>,
    rig: Seq<SlotModel>,
    n: nat,
)
    requires
        n <= order.len(),
    ensures
        forall|k: usize|
            !order.take(n as int).contains(k) ==> (#[trigger] synced(
                m,
                order,
                rig,
                n,
            ).contains_key(k) <==> m.contains_key(k)) && synced(m, order, rig, n)[k] == m[k],
        forall|i: int|
            0 <= i < n ==> synced(m, order, rig, n).contains_key(#[trigger] order[i]),
    decreases n,
{
    if n > 0 {
        sync_leaves_later_alone(m, order, rig, (n - 1) as nat);
        let front = order.take(n - 1);
        let key = order[n - 1];
        assert(order.take(n as int) =~= front.push(key));
        assert forall|k: usize| !order.take(n as int).contains(k) implies (#[trigger] synced(
            m,
            order,
            rig,
            n,
        ).contains_key(k) <==> m.contains_key(k)) && synced(m, order, rig, n)[k] == m[k] by {
            push_contains_iff(front, key, k);
            let before = synced(m, order, rig, (n - 1) as nat);
            assert(before.contains_key(k) <==> m.contains_key(k));
        }
    }
}

/// Endpoints ride the effect, not the slot: after a sync exactly the effects in
/// the chain are tracked, an effect that still fits its slot keeps its endpoints
/// wherever in the chain it now stands, and any other is flat at the current
/// sound.
pub proof fn endpoints_follow_identity(
    m: Map<usize, EndpointsModel>,
    order: Seq<usize>,
    rig: Seq<SlotModel>,
    slot: int,
)
    requires
        order.no_duplicates(),
        0 <= slot < order.len(),
    ensures
        ({
            let after = synced(m.restrict(order.to_set()), order, rig, order.len());
            let key = order[slot];
            let live = live_at(rig, slot);
            &&& after.dom() == order.to_set()
            &&& after[key] == if m.contains_key(key) && !stale(m[key], live) {
                m[key]
            } else {
                flat(live)
            }
        }),
{
    let start = m.restrict(order.to_set());
    let after = synced(start, order, rig, order.len());
    let key = order[slot];
    sync_leaves_later_alone(start, order, rig, order.len());
    assert(order.take(order.len() as int) =~= order);
    assert forall|k: usize| after.dom().contains(k) <==> order.to_set().contains(k) by {
        if order.contains(k) {
            let i = order.index_of(k);
            assert(after.contains_key(order[i]));
        } else {
            assert(after.contains_key(k) <==> start.contains_key(k));
        }
    }
    assert(after.dom() =~= order.to_set());
    assert(order.contains(key));
    sync_settles(start, order, rig, order.len(), slot);
}

proof fn sync_settles(
    m: Map<usize, EndpointsModel>,
    order: Seq<usize>,
    rig: Seq<SlotModel>,
    n: nat,
    slot: int,
)
    requires
        order.no_duplicates(),
        0 <= slot < n <= order.len(),
    ensures
        synced(m, order, rig, n)[order[slot]] == (if m.contains_key(order[slot]) && !stale(
            m[order[slot]],
            live_at(rig, slot),
        ) {
            m[order[slot]]
        } else {
            flat(live_at(rig, slot))
        }),
    decreases n,
{
    if slot == n - 1 {
        sync_leaves_later_alone(m, order, rig, (n - 1) as nat);
        let before = synced(m, order, rig, (n - 1) as nat);
        assert(!order.take(n - 1).contains(order[slot]));
        assert(before.contains_key(order[slot]) <==> m.contains_key(order[slot]));
    } else {
        sync_settles(m, order, rig, (n - 1) as nat, slot);
        assert(order[slot] != order[n - 1]);
    }
}

/// A freshly seeded effect does not move, unless one of its values is a NaN.
pub proof fn seeded_effects_sit_still(live: SlotModel)
    requires
        forall|p: int| 0 <= p < live.values.len() ==> !is_nan(#[trigger] live.values[p]),
    ensures
        !moves(flat(live)),
{
}

/// Writes go to slots of the chain, in order, and never to a locked effect; a
/// slot whose effect is tracked and not locked is written.
pub proof fn writes_spare_locked_effects(
    m: MorphModel,
    order: Seq<usize>,
    rig: Seq<SlotModel>,
    n: nat,
)
    requires
        n <= order.len(),
    ensures
        forall|i: int|
            #![trigger writes_of(m, order, rig, n)[i]]
            0 <= i < writes_of(m, order, rig, n).len() ==> {
                let slot = writes_of(m, order, rig, n)[i].slot;
                &&& 0 <= slot < n
                &&& !m.locked.contains(order[slot])
                &&& m.endpoints.contains_key(order[slot])
                &&& writes_of(m, order, rig, n)[i] == slot_write(
                    m.endpoints[order[slot]],
                    m.t,
                    live_at(rig, slot),
                    slot,
                )
            },
        forall|slot: int|
            #![trigger order[slot]]
            0 <= slot < n && !m.locked.contains(order[slot]) && m.endpoints.contains_key(
                order[slot],
            ) ==> exists|i: int|
                0 <= i < writes_of(m, order, rig, n).len() && (#[trigger] writes_of(
                    m,
                    order,
                    rig,
                    n,
                )[i]).slot == slot,
    decreases n,
{
    if n > 0 {
        writes_spare_locked_effects(m, order, rig, (n - 1) as nat);
        let before = writes_of(m, order, rig, (n - 1) as nat);
        let after = writes_of(m, order, rig, n);
        assert forall|i: int| #![trigger after[i]] 0 <= i < after.len() implies {
            let slot = after[i].slot;
            &&& 0 <= slot < n
            &&& !m.locked.contains(order[slot])
            &&& m.endpoints.contains_key(order[slot])
            &&& after[i] == slot_write(m.endpoints[order[slot]], m.t, live_at(rig, slot), slot)
        } by {
            if i < before.len() {
                assert(after[i] == before[i]);
            }
        }
        assert forall|slot: int|
            #![trigger order[slot]]
            0 <= slot < n && !m.locked.contains(order[slot]) && m.endpoints.contains_key(
                order[slot],
            ) implies exists|i: int| 0 <= i < after.len() && (#[trigger] after[i]).slot == slot by {
            if slot < n - 1 {
                let i = choose|i: int| 0 <= i < before.len() && (#[trigger] before[i]).slot == slot;
                assert(after[i] == before[i]);
            } else {
                assert(after[before.len() as int].slot == slot);
            }
        }
    }
}

/// Writing one pose of distinct effects: each tracked effect takes the live slot
/// into that pose and keeps the other pose, and no effect is added or dropped.
pub proof fn pose_takes_live_values(
    m: Map<usize, EndpointsModel>,
    end: MorphEnd,
    order: Seq<usize>,
    rig: Seq<SlotModel>,
    n: nat,
)
    requires
        order.no_duplicates(),
        n <= order.len(),
    ensures
        pose_written(m, end, order, rig, n).dom() == m.dom(),
        forall|slot: int|
            #![trigger order[slot]]
            0 <= slot < n && m.contains_key(order[slot]) ==> pose_written(
                m,
                end,
                order,
                rig,
                n,
            )[order[slot]] == posed(m[order[slot]], end, live_at(rig, slot)),
        forall|k: usize|
            !order.take(n as int).contains(k) ==> #[trigger] pose_written(m, end, order, rig, n)[k]
                == m[k],
    decreases n,
{
    if n > 0 {
        pose_takes_live_values(m, end, order, rig, (n - 1) as nat);
        let front = order.take(n - 1);
        let key = order[n - 1];
        let after = pose_written(m, end, order, rig, n);
        assert(order.take(n as int) =~= front.push(key));
        assert(!front.contains(key));
        assert(after.dom() =~= m.dom());
        assert forall|k: usize| !order.take(n as int).contains(k) implies #[trigger] after[k]
            == m[k] by {
            push_contains_iff(front, key, k);
        }
        assert forall|slot: int|
            #![trigger order[slot]]
            0 <= slot < n && m.contains_key(order[slot]) implies after[order[slot]] == posed(
            m[order[slot]],
            end,
            live_at(rig, slot),
        ) by {
            if slot < n - 1 {
                assert(order[slot] != key);
            }
        }
    } else {
        assert(pose_written(m, end, order, rig, n).dom() =~= m.dom());
    }
}

/// Grabbing does not make the rig jump: after a live rig has been grabbed into a
/// pose, that pose holds, for every parameter that morphing writes, the value
/// that the slot has already, and its bypass.
pub proof fn grab_does_not_jump(
    m: Map<usize, EndpointsModel>,
    end: MorphEnd,
    order: Seq<usize>,
    rig: Seq<SlotModel>,
    slot: int,
    p: int,
)
    requires
        order.no_duplicates(),
        0 <= slot < order.len(),
        m.contains_key(order[slot]),
    ensures
        ({
            let e = pose_written(m, end, order, rig, order.len())[order[slot]];
            let live = live_at(rig, slot);
            let write = slot_write(e, position_of(end), live, slot);
            &&& write.bypassed == live.bypassed
            &&& 0 <= p < write.params.len() ==> live.values[p] == match end {
                MorphEnd::A => write.params[p].0,
                MorphEnd::B => write.params[p].1,
            }
        }),
{
    pose_takes_live_values(m, end, order, rig, order.len());
}

/// Two saved poses give back the endpoints that they were taken of, wherever the
/// effects fit their slots.
pub proof fn snapshots_restore_endpoints(
    m: Map<usize, EndpointsModel>,
    order: Seq<usize>,
    rig: Seq<SlotModel>,
)
    requires
        order.no_duplicates(),
        m.dom() == order.to_set(),
        forall|i: int|
            #![trigger order[i]]
            0 <= i < order.len() ==> m[order[i]].effect_id == live_at(rig, i).effect_id,
    ensures
        restored(
            order,
            pose_of(m, MorphEnd::A, order, rig),
            pose_of(m, MorphEnd::B, order, rig),
            order.len(),
        ) == m,
{
    let a = pose_of(m, MorphEnd::A, order, rig);
    let b = pose_of(m, MorphEnd::B, order, rig);
    restored_prefix(m, order, rig, order.len());
    let back = restored(order, a, b, order.len());
    assert(order.take(order.len() as int) =~= order);
    assert(back =~= m);
}

proof fn restored_prefix(
    m: Map<usize, EndpointsModel>,
    order: Seq<usize>,
    rig: Seq<SlotModel>,
    n: nat,
)
    requires
        n <= order.len(),
        m.dom() == order.to_set(),
        forall|i: int|
            #![trigger order[i]]
            0 <= i < order.len() ==> m[order[i]].effect_id == live_at(rig, i).effect_id,
    ensures
        restored(
            order,
            pose_of(m, MorphEnd::A, order, rig),
            pose_of(m, MorphEnd::B, order, rig),
            n,
        ) == m.restrict(order.take(n as int).to_set()),
    decreases n,
{
    let a = pose_of(m, MorphEnd::A, order, rig);
    let b = pose_of(m, MorphEnd::B, order, rig);
    let now = order.take(n as int);
    if n == 0 {
        assert(restored(order, a, b, n) =~= m.restrict(now.to_set()));
    } else {
        let front = order.take(n - 1);
        let key = order[n - 1];
        restored_prefix(m, order, rig, (n - 1) as nat);
        assert(now =~= front.push(key));
        assert forall|k: usize| now.contains(k) <==> front.contains(k) || k == key by {
            push_contains_iff(front, key, k);
        }
        assert(order.contains(key));
        assert(order.to_set().contains(key));
        assert(joined(a[n - 1], b[n - 1]) =~= m[key]);
        assert(restored(order, a, b, n) =~= m.restrict(now.to_set()));
    }
}

/// Writes come in slot order, one for a slot at most.
proof fn writes_ascend(m: MorphModel, order: Seq<usize>, rig: Seq<SlotModel>, n: nat)
    requires
        n <= order.len(),
    ensures
        forall|i: int, j: int|
            0 <= i < j < writes_of(m, order, rig, n).len() ==> (#[trigger] writes_of(
                m,
                order,
                rig,
                n,
            )[i]).slot < (#[trigger] writes_of(m, order, rig, n)[j]).slot,
    decreases n,
{
    if n > 0 {
        let before = writes_of(m, order, rig, (n - 1) as nat);
        let after = writes_of(m, order, rig, n);
        writes_ascend(m, order, rig, (n - 1) as nat);
        writes_spare_locked_effects(m, order, rig, (n - 1) as nat);
        assert forall|i: int, j: int| 0 <= i < j < after.len() implies (#[trigger] after[i]).slot
            < (#[trigger] after[j]).slot by {
            assert(after[i] == before[i]);
            if j < before.len() {
                assert(after[j] == before[j]);
            }
        }
    }
}

/// Morphing reaches every parameter of every slot whose effect is tracked and not
/// locked: the slot gets one write, with as many entries as both poses and the
/// slot have parameters, each entry made of the A and the B value of its own
/// parameter. The bypass is that of A below the middle and that of B from there
/// on. No other slot is written.
pub proof fn morph_reaches_every_parameter(
    m: MorphModel,
    order: Seq<usize>,
    rig: Seq<SlotSnapshot>,
    writes: Seq<SlotWrite>,
)
    requires
        writes_view(writes) == writes_of(m, order, slots_view(rig), order.len()),
    ensures
        forall|i: int|
            #![trigger writes[i]]
            0 <= i < writes.len() ==> writes[i].slot < order.len() && !m.locked.contains(
                order[writes[i].slot as int],
            ) && m.endpoints.contains_key(order[writes[i].slot as int]),
        forall|i: int, j: int|
            0 <= i < j < writes.len() ==> (#[trigger] writes[i]).slot < (#[trigger] writes[j]).slot,
        forall|slot: int|
            #![trigger order[slot]]
            0 <= slot < order.len() && m.endpoints.contains_key(order[slot])
                && !m.locked.contains(order[slot]) ==> exists|i: int|
                0 <= i < writes.len() && (#[trigger] writes[i]).slot == slot,
        forall|i: int, p: int|
            #![trigger writes[i].params@[p]]
            0 <= i < writes.len() && 0 <= p < writes[i].params@.len() ==> writes[i].params@[p].0
                == m.endpoints[order[writes[i].slot as int]].a[p] && writes[i].params@[p].1
                == m.endpoints[order[writes[i].slot as int]].b[p],
        forall|i: int, p: int|
            #![trigger writes[i], rig[writes[i].slot as int].values@[p]]
            0 <= i < writes.len() && writes[i].slot < rig.len() && 0 <= p
                < rig[writes[i].slot as int].values@.len() && p
                < m.endpoints[order[writes[i].slot as int]].a.len() && p
                < m.endpoints[order[writes[i].slot as int]].b.len() ==> p
                < writes[i].params@.len(),
        forall|i: int|
            #![trigger writes[i]]
            0 <= i < writes.len() && writes[i].slot < rig.len() ==> writes[i].params@.len()
                <= rig[writes[i].slot as int].values@.len() && writes[i].params@.len()
                <= m.endpoints[order[writes[i].slot as int]].a.len() && writes[i].params@.len()
                <= m.endpoints[order[writes[i].slot as int]].b.len(),
        forall|i: int|
            #![trigger writes[i]]
            0 <= i < writes.len() && m.t < 0x3F00_0000 ==> writes[i].bypassed
                == m.endpoints[order[writes[i].slot as int]].bypass_a,
        forall|i: int|
            #![trigger writes[i]]
            0 <= i < writes.len() && 0x3F00_0000 <= m.t <= 0x7F80_0000 ==> writes[i].bypassed
                == m.endpoints[order[writes[i].slot as int]].bypass_b,
{
    let live = slots_view(rig);
    let ws = writes_of(m, order, live, order.len());
    writes_spare_locked_effects(m, order, live, order.len());
    writes_ascend(m, order, live, order.len());
    assert(ws.len() == writes.len());
    assert forall|i: int| 0 <= i < writes.len() implies ws[i] == (#[trigger] writes[i])@ by {}
    assert forall|slot: int|
        #![trigger order[slot]]
        0 <= slot < order.len() && m.endpoints.contains_key(order[slot]) && !m.locked.contains(
            order[slot],
        ) implies exists|i: int| 0 <= i < writes.len() && (#[trigger] writes[i]).slot == slot by {
        let i = choose|i: int| 0 <= i < ws.len() && (#[trigger] ws[i]).slot == slot;
        assert(ws[i] == writes[i]@);
    }
    assert forall|i: int, j: int| 0 <= i < j < writes.len() implies (#[trigger] writes[i]).slot < (
    #[trigger] writes[j]).slot by {
        assert(ws[i] == writes[i]@ && ws[j] == writes[j]@);
    }
}

/// Reconciling makes every slot of the chain follow the morph: its effect is
/// tracked, with as many values in both poses as the slot has. Where it was
/// tracked before and still fits, its poses are what they were; else both are the
/// current sound.
pub proof fn reconciled_effects_fit(
    m: Map<usize, EndpointsModel>,
    order: Seq<usize>,
    rig: Seq<SlotSnapshot>,
    slot: int,
)
    requires
        order.no_duplicates(),
        0 <= slot < order.len(),
        slot < rig.len(),
    ensures
        ({
            let after = synced(m.restrict(order.to_set()), order, slots_view(rig), order.len());
            let key = order[slot];
            let now = rig[slot];
            &&& after.contains_key(key)
            &&& after[key].effect_id == now.effect_id@
            &&& after[key].a.len() == now.values@.len()
            &&& after[key].b.len() == now.values@.len()
            &&& m.contains_key(key) && m[key].effect_id == now.effect_id@ && m[key].a.len()
                == now.values@.len() && m[key].b.len() == now.values@.len() ==> after[key]
                == m[key]
            &&& !m.contains_key(key) || m[key].effect_id != now.effect_id@ || m[key].a.len()
                != now.values@.len() || m[key].b.len() != now.values@.len() ==> after[key].a
                == now.values@ && after[key].b == now.values@ && after[key].bypass_a
                == now.bypassed && after[key].bypass_b == now.bypassed
            &&& forall|k: usize| after.contains_key(k) ==> order.contains(k)
        }),
{
    endpoints_follow_identity(m, order, slots_view(rig), slot);
    let after = synced(m.restrict(order.to_set()), order, slots_view(rig), order.len());
    assert(order.contains(order[slot]));
    assert(order.to_set().contains(order[slot]));
    assert forall|k: usize| after.contains_key(k) implies order.contains(k) by {
        assert(after.dom().contains(k));
        assert(order.to_set().contains(k));
    }
}

/// What two saved poses say is what is performed: after they have been restored,
/// every slot that both of them and the rig have is written, each parameter
/// between its value in the first pose and its value in the second, and the
/// bypass is that of the first pose below the middle and that of the second from
/// there on.
pub proof fn restored_poses_are_performed(
    m: MorphModel,
    order: Seq<usize>,
    a: MorphSnapshot,
    b: MorphSnapshot,
    rig: Seq<SlotSnapshot>,
    writes: Seq<SlotWrite>,
    slot: int,
) -> (i: int)
    requires
        order.no_duplicates(),
        m.endpoints == restored(
            order,
            slots_view(a.slots@),
            slots_view(b.slots@),
            order.len(),
        ),
        m.locked == Set::<usize>::empty(),
        writes_view(writes) == writes_of(m, order, slots_view(rig), order.len()),
        0 <= slot < order.len(),
        slot < a.slots@.len(),
        slot < b.slots@.len(),
        slot < rig.len(),
        a.slots@[slot].values@.len() == rig[slot].values@.len(),
        b.slots@[slot].values@.len() == rig[slot].values@.len(),
    ensures
        0 <= i < writes.len(),
        writes[i].slot == slot,
        writes[i].params@.len() == rig[slot].values@.len(),
        forall|p: int|
            0 <= p < rig[slot].values@.len() ==> #[trigger] writes[i].params@[p] == (
                a.slots@[slot].values@[p],
                b.slots@[slot].values@[p],
            ),
        m.t < 0x3F00_0000 ==> writes[i].bypassed == a.slots@[slot].bypassed,
        0x3F00_0000 <= m.t <= 0x7F80_0000 ==> writes[i].bypassed == b.slots@[slot].bypassed,
{
    let av = slots_view(a.slots@);
    let bv = slots_view(b.slots@);
    restored_holds(order, av, bv, order.len(), slot);
    morph_reaches_every_parameter(m, order, rig, writes);
    let i = choose|i: int| 0 <= i < writes.len() && (#[trigger] writes[i]).slot == slot;
    let n = rig[slot].values@.len();
    if n > 0 {
        assert(rig[writes[i].slot as int].values@[n - 1] == rig[slot].values@[n - 1]);
        assert(n - 1 < writes[i].params@.len());
    }
    i
}

proof fn restored_holds(
    order: Seq<usize>,
    a: Seq<SlotModel>,
    b: Seq<SlotModel>,
    n: nat,
    slot: int,
)
    requires
        order.no_duplicates(),
        0 <= slot < n <= order.len(),
        slot < a.len(),
        slot < b.len(),
    ensures
        restored(order, a, b, n).contains_key(order[slot]),
        restored(order, a, b, n)[order[slot]] == joined(a[slot], b[slot]),
    decreases n,
{
    if slot < n - 1 {
        restored_holds(order, a, b, (n - 1) as nat, slot);
        assert(order[slot] != order[n - 1]);
    }
}

/// Writing the live rig into one pose: of every tracked effect that fits its
/// slot that pose becomes what the slot has, value for value and with its bypass,
/// and the other pose stays.
pub proof fn the_live_rig_becomes_the_pose(
    m: Map<usize, EndpointsModel>,
    end: MorphEnd,
    order: Seq<usize>,
    rig: Seq<SlotSnapshot>,
    slot: int,
)
    requires
        order.no_duplicates(),
        0 <= slot < order.len(),
        slot < rig.len(),
        m.contains_key(order[slot]),
        m[order[slot]].a.len() == rig[slot].values@.len(),
        m[order[slot]].b.len() == rig[slot].values@.len(),
    ensures
        ({
            let after = pose_written(m, end, order, slots_view(rig), order.len());
            let was = m[order[slot]];
            let now = after[order[slot]];
            &&& after.contains_key(order[slot])
            &&& now.effect_id == was.effect_id
            &&& end == MorphEnd::A ==> now.a == rig[slot].values@ && now.bypass_a
                == rig[slot].bypassed && now.b == was.b && now.bypass_b == was.bypass_b
            &&& end == MorphEnd::B ==> now.b == rig[slot].values@ && now.bypass_b
                == rig[slot].bypassed && now.a == was.a && now.bypass_a == was.bypass_a
        }),
{
    let live = slots_view(rig);
    pose_takes_live_values(m, end, order, live, order.len());
    let after = pose_written(m, end, order, live, order.len());
    assert(after.dom().contains(order[slot]));
    assert(folded(m[order[slot]].a, live[slot].values) =~= rig[slot].values@);
    assert(folded(m[order[slot]].b, live[slot].values) =~= rig[slot].values@);
}

/// A saved pose is the pose: for every slot it has the effect that is there, and
/// the values and the bypass of the pose that was asked for, or those of the live
/// slot where the effect is not tracked.
pub proof fn a_saved_pose_is_the_pose(
    m: Map<usize, EndpointsModel>,
    end: MorphEnd,
    order: Seq<usize>,
    rig: Seq<SlotSnapshot>,
    s: MorphSnapshot,
    slot: int,
)
    requires
        slots_view(s.slots@) == pose_of(m, end, order, slots_view(rig)),
        0 <= slot < order.len(),
        slot < rig.len(),
    ensures
        s.slots@.len() == order.len(),
        s.slots@[slot].effect_id@ == rig[slot].effect_id@,
        !m.contains_key(order[slot]) ==> s.slots@[slot].values@ == rig[slot].values@
            && s.slots@[slot].bypassed == rig[slot].bypassed,
        m.contains_key(order[slot]) && end == MorphEnd::A ==> s.slots@[slot].values@
            == m[order[slot]].a && s.slots@[slot].bypassed == m[order[slot]].bypass_a,
        m.contains_key(order[slot]) && end == MorphEnd::B ==> s.slots@[slot].values@
            == m[order[slot]].b && s.slots@[slot].bypassed == m[order[slot]].bypass_b,
{
    assert(slots_view(s.slots@).len() == s.slots@.len());
    assert(slots_view(s.slots@)[slot] == s.slots@[slot]@);
}

/// Poses that are the same do not move, and poses that differ in the number of
/// values, in one value or in the bypass do. (Zero is the same with either sign.)
pub proof fn only_different_poses_move(e: EndpointsModel, p: int)
    ensures
        e.a == e.b && e.bypass_a == e.bypass_b && (forall|q: int|
            0 <= q < e.a.len() ==> (#[trigger] e.a[q]) % 0x8000_0000 <= 0x7F80_0000) ==> !moves(e),
        e.a.len() != e.b.len() ==> moves(e),
        e.bypass_a != e.bypass_b ==> moves(e),
        0 <= p < e.a.len() && p < e.b.len() && e.a[p] != e.b[p] && (e.a[p] % 0x8000_0000 != 0
            || e.b[p] % 0x8000_0000 != 0) ==> moves(e),
{
    if 0 <= p < e.a.len() && p < e.b.len() && e.a[p] != e.b[p] && (e.a[p] % 0x8000_0000 != 0
        || e.b[p] % 0x8000_0000 != 0) {
        assert(!same(e.a[p], e.b[p]));
    }
}

} // verus!
