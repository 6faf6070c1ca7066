//! Undo/redo history for parameter changes.
//!
//! [`UndoHistory`] tracks parameter mutations as a linear buffer with a cursor.
//! Mutations during an active gesture are grouped, and undo and redo operate on
//! whole groups: one step undoes an entire drag.
use crate::patch::Bits;
use vstd::prelude::*;

verus! {

/// Maximum number of history entries.
pub const MAX_HISTORY: usize = 100;

/// A single parameter mutation: where it happened, and the values before and
/// after it.
#[derive(Clone, Copy, Debug, PartialEq, Eq, Structural)]
pub struct Mutation {
    /// Effect slot index in the graph engine.
    pub slot: usize,
    /// Parameter index within the effect.
    pub param: usize,
    /// Parameter value before the mutation.
    pub old: Bits,
    /// Parameter value after the mutation.
    pub new: Bits,
}

/// Linear undo/redo history with gesture grouping.
#[derive(Clone, Debug)]
pub struct UndoHistory {
    buffer: Vec<Vec<Mutation>>,
    position: usize,
    gesture_buf: Vec<Mutation>,
    gesture_active: bool,
}

/// The mathematical value of an [`UndoHistory`].
#[verifier::ext_equal]
pub struct UndoModel {
    /// Groups that can be undone, oldest first.
    pub past: Seq<Seq<Mutation>>,
    /// Groups that can be redone, next first.
    pub future: Seq<Seq<Mutation>>,
    /// What the open gesture has gathered, if one is open.
    pub gesture: Option<Seq<Mutation>>,
}

/// The contents of some groups.
pub open spec fn groups_view(groups: Seq<Vec<Mutation>>) -> Seq<Seq<Mutation>> {
    Seq::new(groups.len(), |i: int| groups[i]@)
}

impl View for UndoHistory {
    type V = UndoModel;

    closed spec fn view(&self) -> UndoModel {
        UndoModel {
            past: groups_view(self.buffer@).take(self.position as int),
            future: groups_view(self.buffer@).skip(self.position as int),
            gesture: if self.gesture_active {
                Some(self.gesture_buf@)
            } else {
                None
            },
        }
    }
}

/// A history within its bounds: at most [`MAX_HISTORY`] groups, none empty.
pub open spec fn bounded(m: UndoModel) -> bool {
    &&& m.past.len() + m.future.len() <= MAX_HISTORY
    &&& forall|i: int| 0 <= i < m.past.len() ==> (#[trigger] m.past[i]).len() > 0
    &&& forall|i: int| 0 <= i < m.future.len() ==> (#[trigger] m.future[i]).len() > 0
}

/// A history with one more group: what could be redone is gone, and beyond the
/// bound the oldest group drops out.
pub open spec fn committed(m: UndoModel, group: Seq<Mutation>) -> UndoModel {
    UndoModel {
        past: if m.past.len() >= MAX_HISTORY {
            m.past.drop_first().push(group)
        } else {
            m.past.push(group)
        },
        future: Seq::empty(),
        ..m
    }
}

/// A history after a mutation: gathered by an open gesture, else a group of its
/// own.
pub open spec fn pushed(m: UndoModel, mutation: Mutation) -> UndoModel {
    match m.gesture {
        Some(gathered) => UndoModel { gesture: Some(gathered.push(mutation)), ..m },
        None => committed(m, seq![mutation]),
    }
}

/// A history after the open gesture, if any, has been closed.
pub open spec fn gesture_ended(m: UndoModel) -> UndoModel {
    match m.gesture {
        Some(gathered) => {
            let closed_one = UndoModel { gesture: None, ..m };
            if gathered.len() > 0 {
                committed(closed_one, gathered)
            } else {
                closed_one
            }
        },
        None => m,
    }
}

/// A history one step back.
pub open spec fn undone(m: UndoModel) -> UndoModel {
    UndoModel { past: m.past.drop_last(), future: seq![m.past.last()] + m.future, ..m }
}

/// A history one step forward.
pub open spec fn redone(m: UndoModel) -> UndoModel {
    UndoModel { past: m.past.push(m.future.first()), future: m.future.drop_first(), ..m }
}

impl Mutation {
    /// Create a new mutation record.
    pub fn new(slot: usize, param: usize, old: Bits, new: Bits) -> (m: Self)
        ensures
            m == (Mutation { slot, param, old, new }),
    {
        Mutation { slot, param, old, new }
    }
}

impl UndoHistory {
    /// The cursor is within the buffer, the buffer within its bound, and no group
    /// is empty.
    pub closed spec fn wf(self) -> bool {
        &&& self.position <= self.buffer@.len() <= MAX_HISTORY
        &&& forall|i: int| 0 <= i < self.buffer@.len() ==> (#[trigger] self.buffer@[i])@.len() > 0
    }

    /// Create a new empty undo history.
    pub fn new() -> (h: Self)
        ensures
            h.wf(),
            h@ == (UndoModel { past: Seq::empty(), future: Seq::empty(), gesture: None }),
    {
        let h = UndoHistory {
            buffer: Vec::new(),
            position: 0,
            gesture_buf: Vec::new(),
            gesture_active: false,
        };
        assert(h@.past =~= Seq::empty());
        assert(h@.future =~= Seq::empty());
        h
    }

    /// Push a single mutation into the history.
    ///
    /// While a gesture is active, the mutation is gathered into the current
    /// group. Otherwise it is committed at once as a group of its own, which
    /// truncates the redo tail.
    pub fn push(&mut self, mutation: Mutation)
        requires
            old(self).wf(),
        ensures
            final(self).wf(),
            final(self)@ == pushed(old(self)@, mutation),
    {
        if self.gesture_active {
            self.gesture_buf.push(mutation);
        } else {
            let mut group: Vec<Mutation> = Vec::new();
            group.push(mutation);
            assert(group@ =~= seq![mutation]);
            self.commit(group);
        }
    }

    /// Open a gesture group. Nested calls are a no-op.
    pub fn begin_gesture(&mut self)
        requires
            old(self).wf(),
        ensures
            final(self).wf(),
            final(self)@ == (match old(self)@.gesture {
                Some(_) => old(self)@,
                None => UndoModel { gesture: Some(Seq::empty()), ..old(self)@ },
            }),
    {
        if !self.gesture_active {
            self.gesture_active = true;
            self.gesture_buf.clear();
        }
    }

    /// Close a gesture group and commit what it gathered, if anything. Without
    /// an open gesture this is a no-op.
    pub fn end_gesture(&mut self)
        requires
            old(self).wf(),
        ensures
            final(self).wf(),
            final(self)@ == gesture_ended(old(self)@),
    {
        if self.gesture_active {
            self.gesture_active = false;
            let mut group: Vec<Mutation> = Vec::new();
            group.append(&mut self.gesture_buf);
            if !group.is_empty() {
                assert(group@ =~= old(self).gesture_buf@);
                self.commit(group);
            }
        }
    }

    /// Whether a gesture group is currently open.
    pub fn gesture_active(&self) -> (r: bool)
        requires
            self.wf(),
        ensures
            r == self@.gesture is Some,
    {
        self.gesture_active
    }

    /// Undo the most recently committed group. Gives the mutations to be
    /// reversed, or `None` if there is nothing to undo.
    pub fn undo(&mut self) -> (r: Option<Vec<Mutation>>)
        requires
            old(self).wf(),
        ensures
            final(self).wf(),
            match r {
                Some(group) => {
                    &&& old(self)@.past.len() > 0
                    &&& group@ == old(self)@.past.last()
                    &&& final(self)@ == undone(old(self)@)
                },
                None => old(self)@.past.len() == 0 && final(self)@ == old(self)@,
            },
    {
        if self.position == 0 {
            return None;
        }
        self.position = self.position - 1;
        let group = self.buffer[self.position].clone();
        proof {
            let all = groups_view(self.buffer@);
            let p = self.position as int;
            assert(group@ =~= all[p]);
            assert(all.take(p) =~= all.take(p + 1).drop_last());
            assert(all.skip(p) =~= seq![all[p]] + all.skip(p + 1));
        }
        Some(group)
    }

    /// Redo the next committed group. Gives the mutations to be reapplied, or
    /// `None` if there is nothing to redo.
    pub fn redo(&mut self) -> (r: Option<Vec<Mutation>>)
        requires
            old(self).wf(),
        ensures
            final(self).wf(),
            match r {
                Some(group) => {
                    &&& old(self)@.future.len() > 0
                    &&& group@ == old(self)@.future.first()
                    &&& final(self)@ == redone(old(self)@)
                },
                None => old(self)@.future.len() == 0 && final(self)@ == old(self)@,
            },
    {
        if self.position >= self.buffer.len() {
            return None;
        }
        let group = self.buffer[self.position].clone();
        proof {
            let all = groups_view(self.buffer@);
            let p = self.position as int;
            assert(group@ =~= all[p]);
            assert(all.take(p + 1) =~= all.take(p).push(all[p]));
            assert(all.skip(p + 1) =~= all.skip(p).drop_first());
        }
        self.position = self.position + 1;
        Some(group)
    }

    /// Whether there are operations that can be undone.
    pub fn can_undo(&self) -> (r: bool)
        requires
            self.wf(),
        ensures
            r == (self@.past.len() > 0),
    {
        self.position > 0
    }

    /// Whether there are operations that can be redone.
    pub fn can_redo(&self) -> (r: bool)
        requires
            self.wf(),
        ensures
            r == (self@.future.len() > 0),
    {
        self.position < self.buffer.len()
    }

    /// Clear all history, an open gesture included.
    pub fn clear(&mut self)
        ensures
            final(self).wf(),
            final(self)@ == (UndoModel {
                past: Seq::empty(),
                future: Seq::empty(),
                gesture: None,
            }),
    {
        self.position = 0;
        self.buffer.clear();
        self.gesture_active = false;
        self.gesture_buf.clear();
        assert(self@.past =~= Seq::empty());
        assert(self@.future =~= Seq::empty());
    }

    /// Number of committed history entries.
    pub fn len(&self) -> (n: usize)
        requires
            self.wf(),
        ensures
            n == self@.past.len() + self@.future.len(),
            n <= MAX_HISTORY,
    {
        self.buffer.len()
    }

    /// Whether there are no committed history entries.
    pub fn is_empty(&self) -> (r: bool)
        requires
            self.wf(),
        ensures
            r == (self@.past.len() + self@.future.len() == 0),
    {
        self.buffer.is_empty()
    }

    /// Commit a group: truncates the redo tail and enforces the bound.
    fn commit(&mut self, group: Vec<Mutation>)
        requires
            old(self).wf(),
            group@.len() > 0,
        ensures
            final(self).wf(),
            final(self)@ == committed(old(self)@, group@),
    {
        let ghost all = groups_view(self.buffer@);
        let ghost p = self.position as int;
        self.buffer.truncate(self.position);
        assert(groups_view(self.buffer@) =~= all.take(p));
        if self.buffer.len() >= MAX_HISTORY {
            self.position = self.position - 1;
            self.buffer.remove(0);
            assert(groups_view(self.buffer@) =~= all.take(p).drop_first());
        }
        let ghost kept = groups_view(self.buffer@);
        let ghost added = group@;
        self.buffer.push(group);
        self.position = self.buffer.len();
        assert(groups_view(self.buffer@) =~= kept.push(added));
        assert(self@.past =~= kept.push(added));
        assert(self@.future =~= Seq::empty());
    }
}

impl Default for UndoHistory {
    fn default() -> (h: Self)
        ensures
            h.wf(),
            h@ == (UndoModel { past: Seq::empty(), future: Seq::empty(), gesture: None }),
    {
        UndoHistory::new()
    }
}

// Laws.

/// A well-formed history is within its bounds.
pub proof fn histories_are_bounded(h: UndoHistory)
    requires
        h.wf(),
    ensures
        bounded(h@),
{
    let all = groups_view(h.buffer@);
    assert forall|i: int| 0 <= i < h@.past.len() implies (#[trigger] h@.past[i]).len() > 0 by {
        assert(h.buffer@[i]@.len() > 0);
    }
    assert forall|i: int| 0 <= i < h@.future.len() implies (#[trigger] h@.future[i]).len() > 0 by {
        assert(h.buffer@[h.position + i]@.len() > 0);
    }
}

/// Redo takes back an undo, and undo takes back a redo.
pub proof fn undo_and_redo_are_inverse(m: UndoModel)
    ensures
        m.past.len() > 0 ==> redone(undone(m)) == m,
        m.future.len() > 0 ==> undone(redone(m)) == m,
{
    if m.past.len() > 0 {
        assert(redone(undone(m)).past =~= m.past);
        assert(redone(undone(m)).future =~= m.future);
    }
    if m.future.len() > 0 {
        assert(undone(redone(m)).past =~= m.past);
        assert(undone(redone(m)).future =~= m.future);
    }
}

/// A group that was just committed is what the next undo gives back, and nothing
/// can be redone before that; unless the oldest group dropped out, undoing
/// leaves the past as it was.
pub proof fn undo_takes_back_a_commit(m: UndoModel, group: Seq<Mutation>)
    ensures
        committed(m, group).past.last() == group,
        committed(m, group).future.len() == 0,
        m.past.len() < MAX_HISTORY ==> undone(committed(m, group)).past == m.past,
        m.past.len() >= MAX_HISTORY ==> undone(committed(m, group)).past == m.past.drop_first(),
{
    let c = committed(m, group);
    if m.past.len() < MAX_HISTORY {
        assert(c.past.drop_last() =~= m.past);
    } else {
        assert(c.past.drop_last() =~= m.past.drop_first());
    }
}

/// The history after all of the mutations have been pushed.
pub open spec fn all_pushed(m: UndoModel, mutations: Seq<Mutation>) -> UndoModel
    decreases mutations.len(),
{
    if mutations.len() == 0 {
        m
    } else {
        pushed(all_pushed(m, mutations.drop_last()), mutations.last())
    }
}

/// A whole gesture is one step: mutations pushed while a gesture is open end up
/// in a single group, in order.
pub proof fn gesture_is_one_group(m: UndoModel, mutations: Seq<Mutation>)
    requires
        m.gesture is None,
        mutations.len() > 0,
    ensures
        ({
            let opened = UndoModel { gesture: Some(Seq::empty()), ..m };
            gesture_ended(all_pushed(opened, mutations)) == committed(m, mutations)
        }),
{
    let opened = UndoModel { gesture: Some(Seq::empty()), ..m };
    gesture_gathers(opened, mutations);
}

proof fn gesture_gathers(opened: UndoModel, mutations: Seq<Mutation>)
    requires
        opened.gesture == Some(Seq::<Mutation>::empty()),
    ensures
        all_pushed(opened, mutations) == (UndoModel { gesture: Some(mutations), ..opened }),
    decreases mutations.len(),
{
    if mutations.len() > 0 {
        gesture_gathers(opened, mutations.drop_last());
        assert(mutations.drop_last().push(mutations.last()) =~= mutations);
    } else {
        assert(mutations =~= Seq::empty());
    }
}

/// Outside a gesture every mutation is a step of its own: the next undo gives back
/// it alone, and nothing can be redone any more. What was there before stays, up to
/// a hundred steps, beyond which the oldest is lost.
pub proof fn a_mutation_is_a_step(m: UndoModel, mutation: Mutation)
    requires
        m.gesture is None,
        m.past.len() + m.future.len() <= 100,
    ensures
        ({
            let after = pushed(m, mutation);
            &&& after.gesture is None
            &&& after.future.len() == 0
            &&& after.past.len() == if m.past.len() < 100 {
                m.past.len() + 1
            } else {
                100
            }
            &&& after.past.last() == seq![mutation]
            &&& m.past.len() < 100 ==> after.past.drop_last() == m.past
            &&& m.past.len() == 100 ==> after.past.drop_last() == m.past.drop_first()
        }),
{
    let after = pushed(m, mutation);
    if m.past.len() < 100 {
        assert(after.past.drop_last() =~= m.past);
    } else {
        assert(after.past.drop_last() =~= m.past.drop_first());
    }
}

/// A gesture without a mutation leaves no trace, and closing no gesture does
/// nothing. While a gesture is open nothing can be lost: mutations are only
/// gathered, in order.
pub proof fn gestures_only_gather(m: UndoModel, mutation: Mutation)
    ensures
        m.gesture == Some(Seq::<Mutation>::empty()) ==> gesture_ended(m).past == m.past
            && gesture_ended(m).future == m.future && gesture_ended(m).gesture is None,
        m.gesture is None ==> gesture_ended(m) == m,
        m.gesture matches Some(gathered) ==> {
            let after = pushed(m, mutation);
            &&& after.past == m.past
            &&& after.future == m.future
            &&& after.gesture == Some(gathered.push(mutation))
        },
        m.gesture matches Some(gathered) ==> gathered.len() > 0 ==> {
            let after = gesture_ended(m);
            &&& after.gesture is None
            &&& after.future.len() == 0
            &&& after.past.len() > 0
            &&& after.past.last() == gathered
        },
{
}

/// A step back and a step forward move one group from one side to the other and
/// leave all else as it is.
pub proof fn steps_move_one_group(m: UndoModel)
    ensures
        m.past.len() > 0 ==> {
            let after = undone(m);
            &&& after.past == m.past.drop_last()
            &&& after.future.len() == m.future.len() + 1
            &&& after.future[0] == m.past.last()
            &&& forall|i: int|
                0 <= i < m.future.len() ==> after.future[i + 1] == #[trigger] m.future[i]
            &&& after.gesture == m.gesture
        },
        m.future.len() > 0 ==> {
            let after = redone(m);
            &&& after.past == m.past.push(m.future[0])
            &&& after.future == m.future.drop_first()
            &&& after.gesture == m.gesture
        },
{
}

} // verus!
