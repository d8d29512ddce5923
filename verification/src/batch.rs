//! Fluent command sequencing: builders that collect commands, and the plan
//! that coalesces consecutive native commands into single writes.

use std::time::Duration;

use vstd::prelude::*;

use crate::device::{button_name, lock_name, Lock};
use crate::protocol::builder::{build_move, build_silent_move, build_wheel, move_text, silent_move_text, wheel_text};
use crate::protocol::constants::{button_down_cmd, button_force_up_cmd, button_up_cmd, lock_set_cmd, set_text};
use crate::error::MakcuError;
use crate::Button;

verus! {

/// A library-implemented operation that runs with its own timing.
pub enum ExtrasStep {
    Click { button: Button, hold: Duration },
    ClickSequence { button: Button, hold: Duration, count: u32, interval: Duration },
    MoveSmooth { x: i32, y: i32, steps: u32, interval: Duration },
    MovePattern { waypoints: Vec<(i32, i32)>, steps: u32, interval: Duration },
    Drag { button: Button, x: i32, y: i32, steps: u32, interval: Duration },
}

/// One queued step of a batch.
pub enum BatchStep {
    /// Command bytes written to the device as they are.
    Native(Vec<u8>),
    /// A library-implemented operation.
    Extras(ExtrasStep),
}

/// One action of an executed batch, in order.
pub enum BatchAction {
    /// One write of coalesced command bytes.
    Write(Vec<u8>),
    /// Run a library-implemented operation.
    Extras(ExtrasStep),
}

/// Mathematical value of a [`BatchStep`].
pub enum StepModel {
    Native(Seq<u8>),
    Extras(ExtrasStep),
}

/// Mathematical value of a [`BatchAction`].
pub enum ActionModel {
    Write(Seq<u8>),
    Extras(ExtrasStep),
}

impl View for BatchStep {
    type V = StepModel;

    open spec fn view(&self) -> StepModel {
        match self {
            BatchStep::Native(b) => StepModel::Native(b@),
            BatchStep::Extras(e) => StepModel::Extras(*e),
        }
    }
}

impl View for BatchAction {
    type V = ActionModel;

    open spec fn view(&self) -> ActionModel {
        match self {
            BatchAction::Write(b) => ActionModel::Write(b@),
            BatchAction::Extras(e) => ActionModel::Extras(*e),
        }
    }
}

/// The values of a sequence of steps.
pub open spec fn steps_view(s: Seq<BatchStep>) -> Seq<StepModel> {
    s.map_values(|x: BatchStep| x@)
}

/// The values of a sequence of actions.
pub open spec fn actions_view(s: Seq<BatchAction>) -> Seq<ActionModel> {
    s.map_values(|x: BatchAction| x@)
}

/// The actions that executing `steps` performs: every run of consecutive
/// native commands becomes one write of their concatenated bytes (empty runs
/// write nothing), and each extras step runs in its place.
pub open spec fn coalesce(steps: Seq<StepModel>) -> Seq<ActionModel>
    decreases steps.len(),
{
    if steps.len() == 0 {
        Seq::empty()
    } else {
        let prev = coalesce(steps.drop_last());
        match steps.last() {
            StepModel::Native(b) => {
                if b.len() == 0 {
                    prev
                } else if prev.len() > 0 && prev.last() is Write {
                    prev.drop_last().push(ActionModel::Write(prev.last()->Write_0 + b))
                } else {
                    prev.push(ActionModel::Write(b))
                }
            },
            StepModel::Extras(e) => prev.push(ActionModel::Extras(e)),
        }
    }
}

/// All native command bytes of `steps`, in order.
pub open spec fn native_bytes(steps: Seq<StepModel>) -> Seq<u8>
    decreases steps.len(),
{
    if steps.len() == 0 {
        Seq::empty()
    } else {
        native_bytes(steps.drop_last()) + match steps.last() {
            StepModel::Native(b) => b,
            StepModel::Extras(_) => Seq::empty(),
        }
    }
}

/// All bytes written by `actions`, in order.
pub open spec fn written_bytes(actions: Seq<ActionModel>) -> Seq<u8>
    decreases actions.len(),
{
    if actions.len() == 0 {
        Seq::empty()
    } else {
        written_bytes(actions.drop_last()) + match actions.last() {
            ActionModel::Write(b) => b,
            ActionModel::Extras(_) => Seq::empty(),
        }
    }
}

/// The extras operations of `steps`, in order.
pub open spec fn step_extras(steps: Seq<StepModel>) -> Seq<ExtrasStep>
    decreases steps.len(),
{
    if steps.len() == 0 {
        Seq::empty()
    } else {
        step_extras(steps.drop_last()) + match steps.last() {
            StepModel::Native(_) => Seq::empty(),
            StepModel::Extras(e) => seq![e],
        }
    }
}

/// The extras operations of `actions`, in order.
pub open spec fn action_extras(actions: Seq<ActionModel>) -> Seq<ExtrasStep>
    decreases actions.len(),
{
    if actions.len() == 0 {
        Seq::empty()
    } else {
        action_extras(actions.drop_last()) + match actions.last() {
            ActionModel::Write(_) => Seq::empty(),
            ActionModel::Extras(e) => seq![e],
        }
    }
}

/// Fluent command sequence builder.
///
/// Collects commands and turns them, in order, into the actions of one
/// execution.
pub struct BatchBuilder {
    steps: Vec<BatchStep>,
}

impl View for BatchBuilder {
    type V = Seq<StepModel>;

    closed spec fn view(&self) -> Seq<StepModel> {
        steps_view(self.steps@)
    }
}

impl BatchBuilder {
    pub fn new() -> (b: Self)
        ensures
            b@ == Seq::<StepModel>::empty(),
    {
        let b = Self { steps: Vec::new() };
        proof {
            assert(b@ =~= Seq::<StepModel>::empty());
        }
        b
    }

    fn push_step(self, step: BatchStep) -> (b: Self)
        ensures
            b@ == self@.push(step@),
    {
        let mut steps = self.steps;
        steps.push(step);
        let b = Self { steps };
        proof {
            assert(b@ =~= self@.push(step@));
        }
        b
    }

    pub fn move_xy(self, x: i32, y: i32) -> (b: Self)
        requires
            -32767 <= x <= 32767,
            -32767 <= y <= 32767,
        ensures
            b@ == self@.push(StepModel::Native(move_text(x as int, y as int))),
    {
        match build_move(x, y) {
            Ok(cmd) => {
                let bytes = vstd::slice::slice_to_vec(cmd.as_bytes());
                self.push_step(BatchStep::Native(bytes))
            },
            Err(_) => {
                proof {
                    assert(false);
                }
                self
            },
        }
    }

    pub fn silent_move(self, x: i32, y: i32) -> (b: Self)
        requires
            -32767 <= x <= 32767,
            -32767 <= y <= 32767,
        ensures
            b@ == self@.push(StepModel::Native(silent_move_text(x as int, y as int))),
    {
        match build_silent_move(x, y) {
            Ok(cmd) => {
                let bytes = vstd::slice::slice_to_vec(cmd.as_bytes());
                self.push_step(BatchStep::Native(bytes))
            },
            Err(_) => {
                proof {
                    assert(false);
                }
                self
            },
        }
    }

    /// [`BatchBuilder::move_xy`] for coordinates not known to be in range:
    /// out-of-range coordinates give the builder's range error instead.
    pub fn checked_move_xy(self, x: i32, y: i32) -> (r: Result<Self, MakcuError>)
        ensures
            match r {
                Ok(b) => -32767 <= x <= 32767 && -32767 <= y <= 32767 && b@ == self@.push(
                    StepModel::Native(move_text(x as int, y as int)),
                ),
                Err(MakcuError::OutOfRange { value, min, max }) => min == -32767 && max == 32767
                    && if !(-32767 <= x <= 32767) {
                    value == x
                } else {
                    !(-32767 <= y <= 32767) && value == y
                },
                Err(_) => false,
            },
    {
        match build_move(x, y) {
            Ok(cmd) => {
                let bytes = vstd::slice::slice_to_vec(cmd.as_bytes());
                Ok(self.push_step(BatchStep::Native(bytes)))
            },
            Err(e) => Err(e),
        }
    }

    /// [`BatchBuilder::silent_move`] for coordinates not known to be in range.
    pub fn checked_silent_move(self, x: i32, y: i32) -> (r: Result<Self, MakcuError>)
        ensures
            match r {
                Ok(b) => -32767 <= x <= 32767 && -32767 <= y <= 32767 && b@ == self@.push(
                    StepModel::Native(silent_move_text(x as int, y as int)),
                ),
                Err(MakcuError::OutOfRange { value, min, max }) => min == -32767 && max == 32767
                    && if !(-32767 <= x <= 32767) {
                    value == x
                } else {
                    !(-32767 <= y <= 32767) && value == y
                },
                Err(_) => false,
            },
    {
        match build_silent_move(x, y) {
            Ok(cmd) => {
                let bytes = vstd::slice::slice_to_vec(cmd.as_bytes());
                Ok(self.push_step(BatchStep::Native(bytes)))
            },
            Err(e) => Err(e),
        }
    }

    /// [`BatchBuilder::wheel`] for a delta not known to be in range.
    pub fn checked_wheel(self, delta: i32) -> (r: Result<Self, MakcuError>)
        ensures
            match r {
                Ok(b) => -127 <= delta <= 127 && b@ == self@.push(
                    StepModel::Native(wheel_text(delta as int)),
                ),
                Err(MakcuError::OutOfRange { value, min, max }) => !(-127 <= delta <= 127) && value
                    == delta && min == -127 && max == 127,
                Err(_) => false,
            },
    {
        match build_wheel(delta) {
            Ok(cmd) => {
                let bytes = vstd::slice::slice_to_vec(cmd.as_bytes());
                Ok(self.push_step(BatchStep::Native(bytes)))
            },
            Err(e) => Err(e),
        }
    }

    pub fn button_down(self, button: Button) -> (b: Self)
        ensures
            b@ == self@.push(StepModel::Native(set_text(button_name(button), 1))),
    {
        self.push_step(BatchStep::Native(button_down_cmd(button)))
    }

    pub fn button_up(self, button: Button) -> (b: Self)
        ensures
            b@ == self@.push(StepModel::Native(set_text(button_name(button), 0))),
    {
        self.push_step(BatchStep::Native(button_up_cmd(button)))
    }

    pub fn button_up_force(self, button: Button) -> (b: Self)
        ensures
            b@ == self@.push(StepModel::Native(set_text(button_name(button), 2))),
    {
        self.push_step(BatchStep::Native(button_force_up_cmd(button)))
    }

    pub fn wheel(self, delta: i32) -> (b: Self)
        requires
            -127 <= delta <= 127,
        ensures
            b@ == self@.push(StepModel::Native(wheel_text(delta as int))),
    {
        match build_wheel(delta) {
            Ok(cmd) => {
                let bytes = vstd::slice::slice_to_vec(cmd.as_bytes());
                self.push_step(BatchStep::Native(bytes))
            },
            Err(_) => {
                proof {
                    assert(false);
                }
                self
            },
        }
    }

    pub fn set_lock(self, target: Lock, locked: bool) -> (b: Self)
        ensures
            b@ == self@.push(
                StepModel::Native(set_text(lock_name(target), if locked { 1 } else { 0 })),
            ),
    {
        self.push_step(BatchStep::Native(lock_set_cmd(target, locked)))
    }

    pub fn click(self, button: Button, hold: Duration) -> (b: Self)
        ensures
            b@ == self@.push(StepModel::Extras(ExtrasStep::Click { button, hold })),
    {
        self.push_step(BatchStep::Extras(ExtrasStep::Click { button, hold }))
    }

    pub fn click_sequence(self, button: Button, hold: Duration, count: u32, interval: Duration) -> (b:
        Self)
        ensures
            b@ == self@.push(
                StepModel::Extras(ExtrasStep::ClickSequence { button, hold, count, interval }),
            ),
    {
        self.push_step(BatchStep::Extras(ExtrasStep::ClickSequence { button, hold, count, interval }))
    }

    pub fn move_smooth(self, x: i32, y: i32, steps: u32, interval: Duration) -> (b: Self)
        ensures
            b@ == self@.push(StepModel::Extras(ExtrasStep::MoveSmooth { x, y, steps, interval })),
    {
        self.push_step(BatchStep::Extras(ExtrasStep::MoveSmooth { x, y, steps, interval }))
    }

    pub fn move_pattern(self, waypoints: Vec<(i32, i32)>, steps: u32, interval: Duration) -> (b:
        Self)
        ensures
            b@ == self@.push(
                StepModel::Extras(ExtrasStep::MovePattern { waypoints, steps, interval }),
            ),
    {
        self.push_step(BatchStep::Extras(ExtrasStep::MovePattern { waypoints, steps, interval }))
    }

    pub fn drag(self, button: Button, x: i32, y: i32, steps: u32, interval: Duration) -> (b: Self)
        ensures
            b@ == self@.push(StepModel::Extras(ExtrasStep::Drag { button, x, y, steps, interval })),
    {
        self.push_step(BatchStep::Extras(ExtrasStep::Drag { button, x, y, steps, interval }))
    }

    /// The actions that executing the batch performs, in order: consecutive
    /// native commands are coalesced into single writes.
    pub fn execution_plan(self) -> (plan: Vec<BatchAction>)
        ensures
            actions_view(plan@) == coalesce(self@),
    {
        broadcast use vstd::std_specs::vec::axiom_spec_into_iter;

        let ghost all = self.steps@;
        let mut actions: Vec<BatchAction> = Vec::new();
        let mut native_buf: Vec<u8> = Vec::new();
        for step in it: self.steps
            invariant
                it.seq() == all,
                pending(actions_view(actions@), native_buf@) == coalesce(
                    steps_view(all.take(it.index() as int)),
                ),
                actions@.len() == 0 || actions@.last() is Extras,
        {
            proof {
                lemma_steps_view_take(all, it.index() as int);
            }
            match step {
                BatchStep::Native(mut data) => {
                    native_buf.append(&mut data);
                },
                BatchStep::Extras(e) => {
                    if native_buf.len() > 0 {
                        let mut written: Vec<u8> = Vec::new();
                        std::mem::swap(&mut written, &mut native_buf);
                        actions.push(BatchAction::Write(written));
                    }
                    actions.push(BatchAction::Extras(e));
                },
            }
        }
        proof {
            assert(all.take(all.len() as int) =~= all);
        }
        if native_buf.len() > 0 {
            actions.push(BatchAction::Write(native_buf));
        }
        proof {
            assert(actions_view(actions@) =~= coalesce(self@));
        }
        actions
    }
}

/// The actions done so far, followed by the write of the pending bytes, if any.
pub open spec fn pending(done: Seq<ActionModel>, buf: Seq<u8>) -> Seq<ActionModel> {
    if buf.len() > 0 {
        done.push(ActionModel::Write(buf))
    } else {
        done
    }
}

proof fn lemma_steps_view_take(all: Seq<BatchStep>, i: int)
    requires
        0 <= i < all.len(),
    ensures
        steps_view(all.take(i + 1)).drop_last() == steps_view(all.take(i)),
        steps_view(all.take(i + 1)).last() == all[i]@,
        steps_view(all.take(i + 1)).len() == i + 1,
{
    assert(steps_view(all.take(i + 1)).drop_last() =~= steps_view(all.take(i)));
}


/// Asynchronous flavour of [`BatchBuilder`]: the same steps and the same plan.
pub struct AsyncBatchBuilder {
    inner: BatchBuilder,
}

impl View for AsyncBatchBuilder {
    type V = Seq<StepModel>;

    closed spec fn view(&self) -> Seq<StepModel> {
        self.inner@
    }
}

impl AsyncBatchBuilder {
    pub fn new() -> (b: Self)
        ensures
            b@ == Seq::<StepModel>::empty(),
    {
        Self { inner: BatchBuilder::new() }
    }

    pub fn move_xy(self, x: i32, y: i32) -> (b: Self)
        requires
            -32767 <= x <= 32767,
            -32767 <= y <= 32767,
        ensures
            b@ == self@.push(StepModel::Native(move_text(x as int, y as int))),
    {
        Self { inner: self.inner.move_xy(x, y) }
    }

    pub fn silent_move(self, x: i32, y: i32) -> (b: Self)
        requires
            -32767 <= x <= 32767,
            -32767 <= y <= 32767,
        ensures
            b@ == self@.push(StepModel::Native(silent_move_text(x as int, y as int))),
    {
        Self { inner: self.inner.silent_move(x, y) }
    }

    /// [`AsyncBatchBuilder::move_xy`] for coordinates not known to be in range.
    pub fn checked_move_xy(self, x: i32, y: i32) -> (r: Result<Self, MakcuError>)
        ensures
            match r {
                Ok(b) => -32767 <= x <= 32767 && -32767 <= y <= 32767 && b@ == self@.push(
                    StepModel::Native(move_text(x as int, y as int)),
                ),
                Err(MakcuError::OutOfRange { value, min, max }) => min == -32767 && max == 32767
                    && if !(-32767 <= x <= 32767) {
                    value == x
                } else {
                    !(-32767 <= y <= 32767) && value == y
                },
                Err(_) => false,
            },
    {
        match self.inner.checked_move_xy(x, y) {
            Ok(inner) => Ok(Self { inner }),
            Err(e) => Err(e),
        }
    }

    /// [`AsyncBatchBuilder::silent_move`] for coordinates not known to be in range.
    pub fn checked_silent_move(self, x: i32, y: i32) -> (r: Result<Self, MakcuError>)
        ensures
            match r {
                Ok(b) => -32767 <= x <= 32767 && -32767 <= y <= 32767 && b@ == self@.push(
                    StepModel::Native(silent_move_text(x as int, y as int)),
                ),
                Err(MakcuError::OutOfRange { value, min, max }) => min == -32767 && max == 32767
                    && if !(-32767 <= x <= 32767) {
                    value == x
                } else {
                    !(-32767 <= y <= 32767) && value == y
                },
                Err(_) => false,
            },
    {
        match self.inner.checked_silent_move(x, y) {
            Ok(inner) => Ok(Self { inner }),
            Err(e) => Err(e),
        }
    }

    /// [`AsyncBatchBuilder::wheel`] for a delta not known to be in range.
    pub fn checked_wheel(self, delta: i32) -> (r: Result<Self, MakcuError>)
        ensures
            match r {
                Ok(b) => -127 <= delta <= 127 && b@ == self@.push(
                    StepModel::Native(wheel_text(delta as int)),
                ),
                Err(MakcuError::OutOfRange { value, min, max }) => !(-127 <= delta <= 127) && value
                    == delta && min == -127 && max == 127,
                Err(_) => false,
            },
    {
        match self.inner.checked_wheel(delta) {
            Ok(inner) => Ok(Self { inner }),
            Err(e) => Err(e),
        }
    }

    pub fn button_down(self, button: Button) -> (b: Self)
        ensures
            b@ == self@.push(StepModel::Native(set_text(button_name(button), 1))),
    {
        Self { inner: self.inner.button_down(button) }
    }

    pub fn button_up(self, button: Button) -> (b: Self)
        ensures
            b@ == self@.push(StepModel::Native(set_text(button_name(button), 0))),
    {
        Self { inner: self.inner.button_up(button) }
    }

    pub fn button_up_force(self, button: Button) -> (b: Self)
        ensures
            b@ == self@.push(StepModel::Native(set_text(button_name(button), 2))),
    {
        Self { inner: self.inner.button_up_force(button) }
    }

    pub fn wheel(self, delta: i32) -> (b: Self)
        requires
            -127 <= delta <= 127,
        ensures
            b@ == self@.push(StepModel::Native(wheel_text(delta as int))),
    {
        Self { inner: self.inner.wheel(delta) }
    }

    pub fn set_lock(self, target: Lock, locked: bool) -> (b: Self)
        ensures
            b@ == self@.push(
                StepModel::Native(set_text(lock_name(target), if locked { 1 } else { 0 })),
            ),
    {
        Self { inner: self.inner.set_lock(target, locked) }
    }

    pub fn click(self, button: Button, hold: Duration) -> (b: Self)
        ensures
            b@ == self@.push(StepModel::Extras(ExtrasStep::Click { button, hold })),
    {
        Self { inner: self.inner.click(button, hold) }
    }

    pub fn click_sequence(self, button: Button, hold: Duration, count: u32, interval: Duration) -> (b:
        Self)
        ensures
            b@ == self@.push(
                StepModel::Extras(ExtrasStep::ClickSequence { button, hold, count, interval }),
            ),
    {
        Self { inner: self.inner.click_sequence(button, hold, count, interval) }
    }

    pub fn move_smooth(self, x: i32, y: i32, steps: u32, interval: Duration) -> (b: Self)
        ensures
            b@ == self@.push(StepModel::Extras(ExtrasStep::MoveSmooth { x, y, steps, interval })),
    {
        Self { inner: self.inner.move_smooth(x, y, steps, interval) }
    }

    pub fn move_pattern(self, waypoints: Vec<(i32, i32)>, steps: u32, interval: Duration) -> (b:
        Self)
        ensures
            b@ == self@.push(
                StepModel::Extras(ExtrasStep::MovePattern { waypoints, steps, interval }),
            ),
    {
        Self { inner: self.inner.move_pattern(waypoints, steps, interval) }
    }

    pub fn drag(self, button: Button, x: i32, y: i32, steps: u32, interval: Duration) -> (b: Self)
        ensures
            b@ == self@.push(StepModel::Extras(ExtrasStep::Drag { button, x, y, steps, interval })),
    {
        Self { inner: self.inner.drag(button, x, y, steps, interval) }
    }

    /// The actions that executing the batch performs, in order.
    pub fn execution_plan(self) -> (plan: Vec<BatchAction>)
        ensures
            actions_view(plan@) == coalesce(self@),
    {
        self.inner.execution_plan()
    }
}

/// Executing a batch writes exactly the bytes of its native commands, in
/// order: nothing is skipped, duplicated or reordered.
pub proof fn law_plan_preserves_bytes(steps: Seq<StepModel>)
    ensures
        written_bytes(coalesce(steps)) == native_bytes(steps),
    decreases steps.len(),
{
    if steps.len() > 0 {
        law_plan_preserves_bytes(steps.drop_last());
        let prev = coalesce(steps.drop_last());
        match steps.last() {
            StepModel::Native(b) => {
                if b.len() == 0 {
                    assert(native_bytes(steps) =~= native_bytes(steps.drop_last()));
                } else if prev.len() > 0 && prev.last() is Write {
                    let w = prev.last()->Write_0;
                    let cur = prev.drop_last().push(ActionModel::Write(w + b));
                    assert(cur.drop_last() =~= prev.drop_last());
                    assert(written_bytes(cur) =~= written_bytes(prev.drop_last()) + (w + b));
                    assert(written_bytes(prev) =~= written_bytes(prev.drop_last()) + w);
                    assert(written_bytes(cur) =~= native_bytes(steps));
                } else {
                    let cur = prev.push(ActionModel::Write(b));
                    assert(cur.drop_last() =~= prev);
                    assert(written_bytes(cur) =~= native_bytes(steps));
                }
            },
            StepModel::Extras(e) => {
                let cur = prev.push(ActionModel::Extras(e));
                assert(cur.drop_last() =~= prev);
                assert(written_bytes(cur) =~= native_bytes(steps));
            },
        }
    }
}

/// In an executed batch every write carries bytes and no two writes follow
/// each other: consecutive native commands always share one write.
pub proof fn law_plan_writes_coalesced(steps: Seq<StepModel>)
    ensures
        forall|i: int|
            0 <= i < coalesce(steps).len() && (#[trigger] coalesce(steps)[i]) is Write
                ==> coalesce(steps)[i]->Write_0.len() > 0,
        forall|i: int|
            0 <= i < coalesce(steps).len() - 1 && (#[trigger] coalesce(steps)[i]) is Write
                ==> coalesce(steps)[i + 1] is Extras,
    decreases steps.len(),
{
    if steps.len() > 0 {
        law_plan_writes_coalesced(steps.drop_last());
        let prev = coalesce(steps.drop_last());
        let cur = coalesce(steps);
        assert forall|i: int| 0 <= i < cur.len() && (#[trigger] cur[i]) is Write implies cur[i]->Write_0.len() > 0 by {
            if i < prev.len() && i < cur.len() - 1 {
                assert(cur[i] == prev[i]);
            } else if i < prev.len() {
                assert(cur[i] == prev[i] || i == cur.len() - 1);
            }
        }
        assert forall|i: int| 0 <= i < cur.len() - 1 && (#[trigger] cur[i]) is Write implies cur[i + 1] is Extras by {
            if i + 1 < prev.len() {
                assert(cur[i] == prev[i]);
                assert(cur[i + 1] == prev[i + 1]);
            } else {
                assert(cur[i] == prev[i]);
            }
        }
    }
}

/// Executing a batch runs its extras operations exactly once each, in order.
pub proof fn law_plan_keeps_extras(steps: Seq<StepModel>)
    ensures
        action_extras(coalesce(steps)) == step_extras(steps),
    decreases steps.len(),
{
    if steps.len() > 0 {
        law_plan_keeps_extras(steps.drop_last());
        let prev = coalesce(steps.drop_last());
        match steps.last() {
            StepModel::Native(b) => {
                if b.len() == 0 {
                    assert(step_extras(steps) =~= step_extras(steps.drop_last()));
                } else if prev.len() > 0 && prev.last() is Write {
                    let w = prev.last()->Write_0;
                    let cur = prev.drop_last().push(ActionModel::Write(w + b));
                    assert(cur.drop_last() =~= prev.drop_last());
                    assert(action_extras(prev) =~= action_extras(prev.drop_last()));
                    assert(action_extras(cur) =~= step_extras(steps));
                } else {
                    let cur = prev.push(ActionModel::Write(b));
                    assert(cur.drop_last() =~= prev);
                    assert(action_extras(cur) =~= step_extras(steps));
                }
            },
            StepModel::Extras(e) => {
                let cur = prev.push(ActionModel::Extras(e));
                assert(cur.drop_last() =~= prev);
                assert(action_extras(cur) =~= step_extras(steps));
            },
        }
    }
}

} // verus!
