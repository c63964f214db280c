use vstd::prelude::*;

use crate::params::ParamTarget;
use crate::preset::{mapped_target, MappingStore};

verus! {

/// How many snapshots the undo history keeps.
pub const MAX_UNDO_STEPS: usize = 50;

/// The undo history after recording `snapshot` on top of `steps`: the snapshot
/// goes last, and the oldest one is dropped once the history is over its bound.
pub open spec fn pushed_steps<S>(steps: Seq<S>, snapshot: S) -> Seq<S> {
    if steps.len() + 1 > MAX_UNDO_STEPS {
        steps.push(snapshot).drop_first()
    } else {
        steps.push(snapshot)
    }
}

/// The undo history after recording each of `snapshots` in turn.
pub open spec fn pushed_all<S>(steps: Seq<S>, snapshots: Seq<S>) -> Seq<S>
    decreases snapshots.len(),
{
    if snapshots.len() == 0 {
        steps
    } else {
        pushed_steps(pushed_all(steps, snapshots.drop_last()), snapshots.last())
    }
}

/// The undo and redo stacks of parameter snapshots.
pub struct UndoHistory<S> {
    undo: Vec<S>,
    redo: Vec<S>,
}

impl<S> UndoHistory<S> {
    #[verifier::type_invariant]
    spec fn within_bound(&self) -> bool {
        self.undo@.len() <= MAX_UNDO_STEPS
    }

    /// The undo stack, oldest snapshot first.
    pub closed spec fn undo_steps(&self) -> Seq<S> {
        self.undo@
    }

    /// The redo stack, oldest snapshot first.
    pub closed spec fn redo_steps(&self) -> Seq<S> {
        self.redo@
    }

    /// An empty history.
    pub fn new() -> (h: Self)
        ensures
            h.undo_steps() == Seq::<S>::empty(),
            h.redo_steps() == Seq::<S>::empty(),
    {
        UndoHistory {
            undo: Vec::with_capacity(MAX_UNDO_STEPS),
            redo: Vec::with_capacity(MAX_UNDO_STEPS),
        }
    }

    /// Records `snapshot` as the newest undo step, dropping the oldest step
    /// when the bound is passed, and forgets every redo step.
    pub fn push_undo(&mut self, snapshot: S)
        ensures
            final(self).undo_steps() == pushed_steps(old(self).undo_steps(), snapshot),
            final(self).undo_steps().len() <= MAX_UNDO_STEPS,
            final(self).redo_steps() == Seq::<S>::empty(),
    {
        proof {
            use_type_invariant(&*self);
        }
        let mut undo: Vec<S> = Vec::new();
        std::mem::swap(&mut undo, &mut self.undo);
        undo.push(snapshot);
        if undo.len() > MAX_UNDO_STEPS {
            undo.remove(0);
            assert(undo@ =~= old(self).undo@.push(snapshot).drop_first());
        }
        self.undo = undo;
        let mut redo: Vec<S> = Vec::new();
        std::mem::swap(&mut redo, &mut self.redo);
        redo.clear();
        self.redo = redo;
    }

    /// The undo stack, oldest snapshot first.
    pub fn undo(&self) -> (r: &Vec<S>)
        ensures
            r@ == self.undo_steps(),
            r@.len() <= MAX_UNDO_STEPS,
    {
        proof {
            use_type_invariant(self);
        }
        &self.undo
    }

    /// The redo stack, oldest snapshot first.
    pub fn redo(&self) -> (r: &Vec<S>)
        ensures
            r@ == self.redo_steps(),
    {
        &self.redo
    }
}

/// The two comparison slots and which of them is live.
pub struct AbModel<S> {
    pub slot_a: S,
    pub slot_b: S,
    pub is_a: bool,
}

/// The slots after switching away from the live one, which keeps `current`.
pub open spec fn toggled<S>(m: AbModel<S>, current: S) -> AbModel<S> {
    if m.is_a {
        AbModel { slot_a: current, slot_b: m.slot_b, is_a: false }
    } else {
        AbModel { slot_a: m.slot_a, slot_b: current, is_a: true }
    }
}

/// The snapshot of the live slot.
pub open spec fn live_slot<S>(m: AbModel<S>) -> S {
    if m.is_a {
        m.slot_a
    } else {
        m.slot_b
    }
}

/// A/B comparison: two stored parameter snapshots, one of them live.
pub struct AbSlots<S> {
    slot_a: S,
    slot_b: S,
    ab_is_a: bool,
}

impl<S> View for AbSlots<S> {
    type V = AbModel<S>;

    closed spec fn view(&self) -> AbModel<S> {
        AbModel { slot_a: self.slot_a, slot_b: self.slot_b, is_a: self.ab_is_a }
    }
}

impl<S> AbSlots<S> {
    /// Slots holding `slot_a` and `slot_b`, with A live.
    pub fn new(slot_a: S, slot_b: S) -> (r: Self)
        ensures
            r@ == (AbModel { slot_a, slot_b, is_a: true }),
    {
        AbSlots { slot_a, slot_b, ab_is_a: true }
    }

    /// Whether slot A is live.
    pub fn is_a(&self) -> (r: bool)
        ensures
            r == self@.is_a,
    {
        self.ab_is_a
    }

    /// The snapshot of the live slot, which the plugin's parameters follow.
    pub fn live(&self) -> (r: &S)
        ensures
            *r == live_slot(self@),
    {
        if self.ab_is_a {
            &self.slot_a
        } else {
            &self.slot_b
        }
    }

    /// Stores `current` in the live slot and makes the other slot live.
    pub fn toggle_ab(&mut self, current: S)
        ensures
            final(self)@ == toggled(old(self)@, current),
    {
        if self.ab_is_a {
            self.slot_a = current;
        } else {
            self.slot_b = current;
        }
        self.ab_is_a = !self.ab_is_a;
    }
}

/// The parameter that a controller change moves: none while MIDI learn is
/// off, else the one the controller is assigned to.
pub fn route_midi_cc(mapping: &MappingStore, midi_enabled: bool, cc: u8) -> (r: Option<
    ParamTarget,
>)
    ensures
        r == (if midi_enabled {
            mapped_target(mapping@, cc)
        } else {
            None
        }),
{
    if midi_enabled {
        mapping.apply(cc)
    } else {
        None
    }
}

/// Recording a snapshot on a history within its bound keeps it within the
/// bound, makes the snapshot the newest step, and grows the history by one
/// until the bound is reached.
pub proof fn law_push_undo_bounded<S>(steps: Seq<S>, snapshot: S)
    requires
        steps.len() <= MAX_UNDO_STEPS,
    ensures
        pushed_steps(steps, snapshot).len() <= MAX_UNDO_STEPS,
        pushed_steps(steps, snapshot).last() == snapshot,
        pushed_steps(steps, snapshot).len() == (if steps.len() < MAX_UNDO_STEPS {
            steps.len() + 1
        } else {
            MAX_UNDO_STEPS as nat
        }),
{
}

/// After any run of recordings, the history holds exactly the newest
/// snapshots (at most the bound of them), oldest first.
pub proof fn law_push_undo_keeps_newest<S>(steps: Seq<S>, snapshots: Seq<S>)
    requires
        steps.len() <= MAX_UNDO_STEPS,
    ensures
        pushed_all(steps, snapshots) == (steps + snapshots).skip(
            if (steps + snapshots).len() > MAX_UNDO_STEPS {
                (steps + snapshots).len() - MAX_UNDO_STEPS
            } else {
                0
            },
        ),
    decreases snapshots.len(),
{
    let all = steps + snapshots;
    if snapshots.len() == 0 {
        assert(all =~= steps);
        assert(all.skip(0) =~= all);
    } else {
        let rest = snapshots.drop_last();
        law_push_undo_keeps_newest(steps, rest);
        let prev_all = steps + rest;
        let prev_skip: int = if prev_all.len() > MAX_UNDO_STEPS {
            prev_all.len() - MAX_UNDO_STEPS
        } else {
            0
        };
        let prev = prev_all.skip(prev_skip);
        assert(pushed_all(steps, rest) == prev);
        assert(all =~= prev_all.push(snapshots.last()));
        if prev.len() + 1 > MAX_UNDO_STEPS {
            assert(prev.push(snapshots.last()).drop_first() =~= all.skip(
                all.len() - MAX_UNDO_STEPS,
            ));
        } else {
            let skip: int = if all.len() > MAX_UNDO_STEPS {
                all.len() - MAX_UNDO_STEPS
            } else {
                0
            };
            assert(prev.push(snapshots.last()) =~= all.skip(skip));
        }
    }
}

/// Switching makes the slot that was not live the live one, unchanged.
pub proof fn law_toggle_goes_to_other_slot<S>(m: AbModel<S>, current: S)
    ensures
        toggled(m, current).is_a == !m.is_a,
        live_slot(toggled(m, current)) == (if m.is_a {
            m.slot_b
        } else {
            m.slot_a
        }),
{
}

/// Switching twice brings back the snapshot that was current before the first
/// switch, with the same slot live as before.
pub proof fn law_toggle_twice_restores<S>(m: AbModel<S>, first: S, second: S)
    ensures
        live_slot(toggled(toggled(m, first), second)) == first,
        toggled(toggled(m, first), second).is_a == m.is_a,
{
}

} // verus!
