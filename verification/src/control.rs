//! The control loop's decision core. The loop runs one cycle per period:
//! drain device events, sample the axes, encode and write one frame if a
//! device is present, and keep running unless the write failed. The
//! surrounding process performs the device, transport and display work and
//! feeds the outcomes back in; this module fixes what is decided each cycle
//! and proves how a run behaves over any sequence of cycles.

use crate::frame::{encode, frame_spec, AxisReading, Frame};
use vstd::prelude::*;

verus! {

/// The loop's two states. `Terminated` is terminal: it is entered exactly on
/// a transport write failure and never left.
pub enum LoopState {
    Running,
    Terminated,
}

/// What the environment supplies to one cycle: the sampled reading, if a
/// device was present, and whether a frame write would succeed this cycle
/// (consulted only when a write is attempted).
pub struct CycleInput {
    pub reading: Option<AxisReading>,
    pub write_ok: bool,
}

/// The frame whose write is attempted during one cycle: exactly one when the
/// loop is running and a device is present, none otherwise.
pub open spec fn frame_written(s: LoopState, reading: Option<AxisReading>) -> Option<Seq<u8>> {
    match reading {
        Some(r) => if s is Running {
            Some(frame_spec(r.x as int, r.y as int))
        } else {
            None
        },
        None => None,
    }
}

/// The state after one cycle: a running loop terminates exactly when it
/// attempted a write and the write failed; device absence is a normal state
/// that leaves the loop running.
pub open spec fn step_spec(s: LoopState, inp: CycleInput) -> LoopState {
    if s is Terminated {
        LoopState::Terminated
    } else {
        match inp.reading {
            Some(_) => if inp.write_ok {
                LoopState::Running
            } else {
                LoopState::Terminated
            },
            None => LoopState::Running,
        }
    }
}

/// The state after a whole run of cycles.
pub open spec fn run_state(s: LoopState, inputs: Seq<CycleInput>) -> LoopState
    decreases inputs.len(),
{
    if inputs.len() == 0 {
        s
    } else {
        run_state(step_spec(s, inputs[0]), inputs.drop_first())
    }
}

/// Every frame whose write is attempted over a run, in cycle order.
pub open spec fn frames_attempted(s: LoopState, inputs: Seq<CycleInput>) -> Seq<Seq<u8>>
    decreases inputs.len(),
{
    if inputs.len() == 0 {
        Seq::empty()
    } else {
        let head = match frame_written(s, inputs[0].reading) {
            Some(f) => seq![f],
            None => Seq::<Seq<u8>>::empty(),
        };
        head + frames_attempted(step_spec(s, inputs[0]), inputs.drop_first())
    }
}

/// A terminated loop never writes again, whatever the later cycles offer.
pub proof fn lemma_terminated_writes_nothing(inputs: Seq<CycleInput>)
    ensures
        frames_attempted(LoopState::Terminated, inputs) =~= Seq::<Seq<u8>>::empty(),
        run_state(LoopState::Terminated, inputs) is Terminated,
    decreases inputs.len(),
{
    if inputs.len() > 0 {
        lemma_terminated_writes_nothing(inputs.drop_first());
    }
}

/// A failed write terminates the run by the end of its own cycle: whatever
/// follows a cycle whose write fails, the run's state after that cycle is
/// the terminal one.
pub proof fn lemma_failure_terminates(inputs: Seq<CycleInput>, i: int)
    requires
        0 <= i < inputs.len(),
        inputs[i].reading is Some,
        !inputs[i].write_ok,
    ensures
        run_state(LoopState::Running, inputs.take(i + 1)) is Terminated,
    decreases i,
{
    let pre = inputs.take(i + 1);
    assert(pre.len() == i + 1);
    assert(pre[0] == inputs[0]);
    let s1 = step_spec(LoopState::Running, inputs[0]);
    assert(run_state(LoopState::Running, pre) == run_state(s1, pre.drop_first()));
    if i == 0 {
        assert(pre.drop_first() =~= Seq::<CycleInput>::empty());
        assert(run_state(s1, pre.drop_first()) == s1);
        assert(s1 is Terminated);
    } else {
        assert(pre.drop_first() =~= inputs.drop_first().take(i));
        assert(inputs.drop_first()[i - 1] == inputs[i]);
        if s1 is Terminated {
            lemma_terminated_writes_nothing(pre.drop_first());
        } else {
            assert(s1 == LoopState::Running);
            lemma_failure_terminates(inputs.drop_first(), i - 1);
        }
    }
}

/// Once a cycle's write fails, no further write is attempted: the frames
/// attempted over the whole run are exactly those attempted up to and
/// including the failing cycle.
pub proof fn lemma_failure_stops_writes(inputs: Seq<CycleInput>, i: int)
    requires
        0 <= i < inputs.len(),
        inputs[i].reading is Some,
        !inputs[i].write_ok,
    ensures
        frames_attempted(LoopState::Running, inputs) =~= frames_attempted(
            LoopState::Running,
            inputs.take(i + 1),
        ),
    decreases i,
{
    let pre = inputs.take(i + 1);
    assert(pre[0] == inputs[0]);
    let s1 = step_spec(LoopState::Running, inputs[0]);
    if i == 0 {
        assert(s1 is Terminated);
        lemma_terminated_writes_nothing(inputs.drop_first());
        assert(pre.drop_first() =~= Seq::<CycleInput>::empty());
        lemma_terminated_writes_nothing(pre.drop_first());
    } else {
        assert(pre.drop_first() =~= inputs.drop_first().take(i));
        if s1 is Terminated {
            lemma_terminated_writes_nothing(inputs.drop_first());
            lemma_terminated_writes_nothing(pre.drop_first());
        } else {
            lemma_failure_stops_writes(inputs.drop_first(), i - 1);
        }
    }
}

/// Appending one cycle to a run appends at most that cycle's own write.
pub proof fn lemma_frames_snoc(s: LoopState, inputs: Seq<CycleInput>, x: CycleInput)
    ensures
        frames_attempted(s, inputs.push(x)) =~= frames_attempted(s, inputs) + (match frame_written(
            run_state(s, inputs),
            x.reading,
        ) {
            Some(f) => seq![f],
            None => Seq::<Seq<u8>>::empty(),
        }),
    decreases inputs.len(),
{
    let tail = (match frame_written(run_state(s, inputs), x.reading) {
        Some(f) => seq![f],
        None => Seq::<Seq<u8>>::empty(),
    });
    assert(inputs.push(x).len() == inputs.len() + 1);
    if inputs.len() == 0 {
        assert(inputs.push(x)[0] == x);
        assert(inputs.push(x).drop_first() =~= Seq::<CycleInput>::empty());
        assert(run_state(s, inputs) == s);
        assert(frames_attempted(s, inputs) =~= Seq::<Seq<u8>>::empty());
        let sx = step_spec(s, x);
        assert(frames_attempted(s, inputs.push(x)) =~= (match frame_written(s, x.reading) {
            Some(f) => seq![f],
            None => Seq::<Seq<u8>>::empty(),
        }) + frames_attempted(sx, inputs.push(x).drop_first()));
        assert(frames_attempted(sx, Seq::<CycleInput>::empty()) =~= Seq::<Seq<u8>>::empty());
    } else {
        assert(inputs.push(x)[0] == inputs[0]);
        assert(inputs.push(x).drop_first() =~= inputs.drop_first().push(x));
        let s1 = step_spec(s, inputs[0]);
        lemma_frames_snoc(s1, inputs.drop_first(), x);
        assert(run_state(s1, inputs.drop_first()) == run_state(s, inputs));
        let head = (match frame_written(s, inputs[0].reading) {
            Some(f) => seq![f],
            None => Seq::<Seq<u8>>::empty(),
        });
        assert(frames_attempted(s, inputs.push(x)) =~= head + frames_attempted(
            s1,
            inputs.drop_first().push(x),
        ));
        assert(frames_attempted(s1, inputs.drop_first().push(x)) =~= frames_attempted(
            s1,
            inputs.drop_first(),
        ) + tail);
        assert(frames_attempted(s, inputs) =~= head + frames_attempted(s1, inputs.drop_first()));
    }
}

/// The encodings of the present readings of a run, in cycle order: what a
/// run writes while nothing fails.
pub open spec fn present_frames(inputs: Seq<CycleInput>) -> Seq<Seq<u8>>
    decreases inputs.len(),
{
    if inputs.len() == 0 {
        Seq::empty()
    } else {
        let head = match inputs[0].reading {
            Some(r) => seq![frame_spec(r.x as int, r.y as int)],
            None => Seq::<Seq<u8>>::empty(),
        };
        head + present_frames(inputs.drop_first())
    }
}

/// While every write succeeds, the run attempts exactly one frame per cycle
/// in which a device is present and none in a cycle without one: the frames
/// written are precisely the encodings of the present readings, in order.
pub proof fn lemma_one_frame_per_device_cycle(inputs: Seq<CycleInput>)
    requires
        forall|j: int| 0 <= j < inputs.len() ==> inputs[j].write_ok,
    ensures
        frames_attempted(LoopState::Running, inputs) =~= present_frames(inputs),
    decreases inputs.len(),
{
    if inputs.len() > 0 {
        let rest = inputs.drop_first();
        assert(step_spec(LoopState::Running, inputs[0]) == LoopState::Running);
        assert(forall|j: int| 0 <= j < rest.len() ==> rest[j] == inputs[j + 1]);
        lemma_one_frame_per_device_cycle(rest);
        let head = (match frame_written(LoopState::Running, inputs[0].reading) {
            Some(f) => seq![f],
            None => Seq::<Seq<u8>>::empty(),
        });
        assert(frames_attempted(LoopState::Running, inputs) =~= head + frames_attempted(
            LoopState::Running,
            rest,
        ));
        assert(present_frames(inputs) =~= head + present_frames(rest));
    }
}

/// A cycle without a device writes nothing and leaves the loop's state
/// untouched: device absence is a steady state, not a failure.
pub proof fn lemma_no_device_no_write(s: LoopState, inp: CycleInput)
    requires
        inp.reading is None,
    ensures
        frame_written(s, inp.reading) is None,
        step_spec(s, inp) == s,
{
}

/// Over a whole run, a cycle without a device contributes no frame: the
/// frames attempted through such a cycle are exactly those attempted before
/// it.
pub proof fn lemma_no_device_cycle_writes_nothing(inputs: Seq<CycleInput>, i: int)
    requires
        0 <= i < inputs.len(),
        inputs[i].reading is None,
    ensures
        frames_attempted(LoopState::Running, inputs.take(i + 1)) =~= frames_attempted(
            LoopState::Running,
            inputs.take(i),
        ),
{
    assert(inputs.take(i + 1) =~= inputs.take(i).push(inputs[i]));
    lemma_frames_snoc(LoopState::Running, inputs.take(i), inputs[i]);
}

/// The scheduler's state, driven from outside: each cycle the caller asks
/// [`ControlLoop::plan`] whether a frame is to be written, performs the
/// write, and feeds the outcome back through [`ControlLoop::record_write`].
pub struct ControlLoop {
    state: LoopState,
}

impl ControlLoop {
    /// The loop's current state.
    pub closed spec fn state_spec(self) -> LoopState {
        self.state
    }

    /// A fresh loop, entered running once the transport is open and the
    /// display is initialized.
    pub fn new() -> (c: ControlLoop)
        ensures
            c.state_spec() is Running,
    {
        ControlLoop { state: LoopState::Running }
    }

    /// Whether the loop should keep cycling.
    pub fn is_running(&self) -> (b: bool)
        ensures
            b == (self.state_spec() is Running),
    {
        match self.state {
            LoopState::Running => true,
            LoopState::Terminated => false,
        }
    }

    /// Whether the run ended on a transport write failure: the terminal
    /// state is entered on no other path.
    pub fn failed(&self) -> (b: bool)
        ensures
            b == (self.state_spec() is Terminated),
    {
        match self.state {
            LoopState::Running => false,
            LoopState::Terminated => true,
        }
    }

    /// Decide this cycle's write: exactly one frame when the loop is running
    /// and a device is present, none when no device is enumerated or the
    /// loop has terminated.
    pub fn plan(&self, reading: &Option<AxisReading>) -> (f: Option<Frame>)
        ensures
            match f {
                Some(fr) => frame_written(self.state_spec(), *reading) == Some(fr@),
                None => frame_written(self.state_spec(), *reading) is None,
            },
    {
        match reading {
            Some(r) => {
                if self.is_running() {
                    Some(encode(r))
                } else {
                    None
                }
            },
            None => None,
        }
    }

    /// Fold one write attempt's outcome back in: failure moves the loop to
    /// its terminal state, success keeps the state as it was.
    pub fn record_write(&mut self, ok: bool)
        ensures
            final(self).state_spec() == (if ok {
                old(self).state_spec()
            } else {
                LoopState::Terminated
            }),
    {
        if !ok {
            self.state = LoopState::Terminated;
        }
    }
}

/// One cycle of the loop is the pair (plan, record): the next state that
/// [`ControlLoop::record_write`] establishes is the step of the state
/// machine, and a cycle that attempts no write leaves the state unchanged.
pub proof fn lemma_record_write_is_step(s: LoopState, inp: CycleInput)
    ensures
        inp.reading is Some && s is Running ==> step_spec(s, inp) == (if inp.write_ok {
            s
        } else {
            LoopState::Terminated
        }),
        frame_written(s, inp.reading) is None ==> step_spec(s, inp) == s,
        s is Terminated ==> step_spec(s, inp) == s,
{
}

} // verus!
