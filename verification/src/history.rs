//! Whole-editor undo and redo: snapshots taken before structural edits.
use vstd::prelude::*;

verus! {

/// How many structural edits can be undone.
pub const UNDO_DEPTH: usize = 64;

/// Snapshots to go back to, snapshots to go forward to, and the snapshot taken
/// at the start of the current interaction.
#[derive(Debug)]
pub struct SnapshotHistory<T> {
    undo: Vec<T>,
    redo: Vec<T>,
    pending: Option<T>,
}

/// The mathematical value of a [`SnapshotHistory`].
#[verifier::ext_equal]
pub struct HistoryModel<T> {
    pub undo: Seq<T>,
    pub redo: Seq<T>,
    pub pending: Option<T>,
}

impl<T> View for SnapshotHistory<T> {
    type V = HistoryModel<T>;

    closed spec fn view(&self) -> HistoryModel<T> {
        HistoryModel { undo: self.undo@, redo: self.redo@, pending: self.pending }
    }
}

/// The history after a structural edit: the staged snapshot, if any, becomes the
/// point to go back to, beyond the bound the oldest drops out, and there is
/// nothing to go forward to.
pub open spec fn edited<T>(m: HistoryModel<T>) -> HistoryModel<T> {
    match m.pending {
        Some(prev) => HistoryModel {
            undo: if m.undo.len() >= UNDO_DEPTH {
                m.undo.push(prev).drop_first()
            } else {
                m.undo.push(prev)
            },
            redo: Seq::empty(),
            pending: None,
        },
        None => m,
    }
}

impl<T> SnapshotHistory<T> {
    /// Nothing to go back or forward to.
    pub fn new() -> (h: Self)
        ensures
            h@ == (HistoryModel::<T> { undo: Seq::empty(), redo: Seq::empty(), pending: None }),
    {
        SnapshotHistory { undo: Vec::new(), redo: Vec::new(), pending: None }
    }

    /// Stage the snapshot taken at the start of an interaction.
    pub fn stage(&mut self, snapshot: T)
        ensures
            final(self)@ == (HistoryModel { pending: Some(snapshot), ..old(self)@ }),
    {
        self.pending = Some(snapshot);
    }

    /// Record that the interaction made a structural edit.
    pub fn edited(&mut self)
        ensures
            final(self)@ == edited(old(self)@),
    {
        match self.pending.take() {
            Some(prev) => {
                let full = self.undo.len() >= UNDO_DEPTH;
                self.undo.push(prev);
                if full {
                    self.undo.remove(0);
                    assert(self.undo@ =~= old(self).undo@.push(prev).drop_first());
                }
                self.redo.clear();
            },
            None => {},
        }
    }

    /// Step back from `current`: gives the snapshot to restore, if there is one,
    /// and keeps `current` to go forward to.
    pub fn undo(&mut self, current: T) -> (r: Option<T>)
        ensures
            match r {
                Some(prev) => {
                    &&& old(self)@.undo.len() > 0
                    &&& prev == old(self)@.undo.last()
                    &&& final(self)@ == (HistoryModel {
                        undo: old(self)@.undo.drop_last(),
                        redo: old(self)@.redo.push(current),
                        ..old(self)@
                    })
                },
                None => old(self)@.undo.len() == 0 && final(self)@ == old(self)@,
            },
    {
        match self.undo.pop() {
            Some(prev) => {
                self.redo.push(current);
                Some(prev)
            },
            None => None,
        }
    }

    /// Step forward from `current`: gives the snapshot to restore, if there is
    /// one, and keeps `current` to go back to.
    pub fn redo(&mut self, current: T) -> (r: Option<T>)
        ensures
            match r {
                Some(next) => {
                    &&& old(self)@.redo.len() > 0
                    &&& next == old(self)@.redo.last()
                    &&& final(self)@ == (HistoryModel {
                        undo: old(self)@.undo.push(current),
                        redo: old(self)@.redo.drop_last(),
                        ..old(self)@
                    })
                },
                None => old(self)@.redo.len() == 0 && final(self)@ == old(self)@,
            },
    {
        match self.redo.pop() {
            Some(next) => {
                self.undo.push(current);
                Some(next)
            },
            None => None,
        }
    }

    /// Forget both directions: a fresh start, as after loading a session.
    pub fn clear(&mut self)
        ensures
            final(self)@ == (HistoryModel {
                undo: Seq::empty(),
                redo: Seq::empty(),
                ..old(self)@
            }),
    {
        self.undo.clear();
        self.redo.clear();
    }

    /// Whether there is something to go back to.
    pub fn can_undo(&self) -> (r: bool)
        ensures
            r == (self@.undo.len() > 0),
    {
        !self.undo.is_empty()
    }

    /// Whether there is something to go forward to.
    pub fn can_redo(&self) -> (r: bool)
        ensures
            r == (self@.redo.len() > 0),
    {
        !self.redo.is_empty()
    }
}

/// Stepping back and then forward again restores the snapshot that was current
/// and the history as it was, and the other way round.
pub proof fn steps_are_inverse<T>(m: HistoryModel<T>, current: T)
    ensures
        m.undo.len() > 0 ==> ({
            let back = HistoryModel {
                undo: m.undo.drop_last(),
                redo: m.redo.push(current),
                ..m
            };
            &&& back.redo.last() == current
            &&& (HistoryModel {
                undo: back.undo.push(m.undo.last()),
                redo: back.redo.drop_last(),
                ..back
            }) == m
        }),
        m.redo.len() > 0 ==> ({
            let on = HistoryModel { undo: m.undo.push(current), redo: m.redo.drop_last(), ..m };
            &&& on.undo.last() == current
            &&& (HistoryModel {
                undo: on.undo.drop_last(),
                redo: on.redo.push(m.redo.last()),
                ..on
            }) == m
        }),
{
    if m.undo.len() > 0 {
        assert(m.undo.drop_last().push(m.undo.last()) =~= m.undo);
        assert(m.redo.push(current).drop_last() =~= m.redo);
    }
    if m.redo.len() > 0 {
        assert(m.redo.drop_last().push(m.redo.last()) =~= m.redo);
        assert(m.undo.push(current).drop_last() =~= m.undo);
    }
}

/// The two directions together never hold more than the bound: edits keep to it,
/// and a step moves one snapshot from one side to the other.
pub proof fn depth_is_bounded<T>(m: HistoryModel<T>)
    requires
        m.undo.len() + m.redo.len() <= UNDO_DEPTH,
    ensures
        edited(m).undo.len() + edited(m).redo.len() <= UNDO_DEPTH,
        m.undo.len() > 0 ==> m.undo.drop_last().len() + (m.redo.len() + 1) <= UNDO_DEPTH,
        m.redo.len() > 0 ==> (m.undo.len() + 1) + m.redo.drop_last().len() <= UNDO_DEPTH,
{
}

/// An edit can be undone: the snapshot staged before it is what undoing gives
/// back, what could be undone before still can behind it, up to sixty-four edits,
/// beyond which the oldest is lost, and there is nothing to go forward to. Without
/// a staged snapshot nothing changes.
pub proof fn an_edit_can_be_undone<T>(m: HistoryModel<T>)
    ensures
        m.pending matches Some(staged) ==> {
            let after = edited(m);
            &&& after.undo.len() > 0
            &&& after.undo.last() == staged
            &&& after.redo.len() == 0
            &&& after.pending is None
            &&& m.undo.len() < 64 ==> after.undo.drop_last() == m.undo
            &&& m.undo.len() == 64 ==> after.undo.len() == 64 && after.undo.drop_last()
                == m.undo.drop_first()
        },
        m.pending is None ==> edited(m) == m,
{
    if m.pending is Some {
        let after = edited(m);
        if m.undo.len() < 64 {
            assert(after.undo.drop_last() =~= m.undo);
        } else if m.undo.len() == 64 {
            assert(after.undo.drop_last() =~= m.undo.drop_first());
        }
    }
}

} // verus!
