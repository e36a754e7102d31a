//! The flicker driver: which of the two fill colours a presentation cycle
//! clears the surface to.

use vstd::prelude::*;

verus! {

/// One of the two configured fill colours.
#[derive(Clone, Copy, Debug, PartialEq, Eq, Structural)]
pub enum FillColor {
    ColorA,
    ColorB,
}

/// How the request for the next presentable image ended.
#[derive(Clone, Copy, Debug, PartialEq, Eq, Structural)]
pub enum Acquisition {
    Acquired,
    Failed,
}

/// What the host does with the presentation cycle at hand.
#[derive(Clone, Copy, Debug, PartialEq, Eq, Structural)]
pub enum FrameAction {
    /// Clear the acquired image to the colour, submit and present.
    Present(FillColor),
    /// No image to draw on: leave this cycle out.
    Skip,
}

/// The colour that is due while the flag has the given value.
pub open spec fn color_for(flag: bool) -> FillColor {
    if flag {
        FillColor::ColorA
    } else {
        FillColor::ColorB
    }
}

/// The action of a cycle that starts with the given flag.
pub open spec fn frame_action(flag: bool, acquisition: Acquisition) -> FrameAction {
    match acquisition {
        Acquisition::Acquired => FrameAction::Present(color_for(flag)),
        Acquisition::Failed => FrameAction::Skip,
    }
}

/// The flag after `cycles` cycles: every cycle flips it.
pub open spec fn flag_after(flag: bool, cycles: nat) -> bool {
    if cycles % 2 == 0 {
        flag
    } else {
        !flag
    }
}

/// The actions of consecutive cycles, one for each acquisition outcome in
/// turn, the first cycle starting with `flag`.
pub open spec fn flicker_trace(flag: bool, outcomes: Seq<Acquisition>) -> Seq<FrameAction>
    decreases outcomes.len(),
{
    if outcomes.len() == 0 {
        Seq::empty()
    } else {
        seq![frame_action(flag, outcomes[0])] + flicker_trace(!flag, outcomes.drop_first())
    }
}

/// The flag that says which colour is due next.
#[derive(Clone, Copy, Debug)]
pub struct FlickerDriver {
    flag: bool,
}

impl View for FlickerDriver {
    type V = bool;

    closed spec fn view(&self) -> bool {
        self.flag
    }
}

impl FlickerDriver {
    /// A driver whose first colour is `ColorB`.
    pub fn new() -> (driver: FlickerDriver)
        ensures
            driver@ == false,
    {
        FlickerDriver { flag: false }
    }

    /// The flag: set while `ColorA` is due next.
    pub fn flag(&self) -> (flag: bool)
        ensures
            flag == self@,
    {
        self.flag
    }

    /// The colour that is due next.
    pub fn select(&self) -> (color: FillColor)
        ensures
            color == color_for(self@),
    {
        if self.flag {
            FillColor::ColorA
        } else {
            FillColor::ColorB
        }
    }

    /// One presentation cycle: says what to do with the image, if there is
    /// one, and flips the flag whether or not there is.
    pub fn cycle(&mut self, acquisition: Acquisition) -> (action: FrameAction)
        ensures
            action == frame_action(old(self)@, acquisition),
            final(self)@ == !old(self)@,
    {
        let action = match acquisition {
            Acquisition::Acquired => FrameAction::Present(self.select()),
            Acquisition::Failed => FrameAction::Skip,
        };
        self.flag = !self.flag;
        action
    }
}

/// The action of every cycle depends on the number of cycles before it and
/// on its own outcome alone: cycle `k` acts as a first cycle would whose
/// flag has been flipped `k` times.
pub proof fn lemma_trace_by_parity(flag: bool, outcomes: Seq<Acquisition>)
    ensures
        flicker_trace(flag, outcomes).len() == outcomes.len(),
        forall|k: int|
            0 <= k < outcomes.len() ==> #[trigger] flicker_trace(flag, outcomes)[k]
                == frame_action(flag_after(flag, k as nat), outcomes[k]),
    decreases outcomes.len(),
{
    if outcomes.len() > 0 {
        let rest = outcomes.drop_first();
        lemma_trace_by_parity(!flag, rest);
        assert forall|k: int| 0 <= k < outcomes.len() implies #[trigger] flicker_trace(
            flag,
            outcomes,
        )[k] == frame_action(flag_after(flag, k as nat), outcomes[k]) by {
            if k > 0 {
                assert(flicker_trace(flag, outcomes)[k] == flicker_trace(!flag, rest)[k - 1]);
                assert(rest[k - 1] == outcomes[k]);
                assert(flag_after(!flag, (k - 1) as nat) == flag_after(flag, k as nat));
            }
        }
    }
}

/// While every image is acquired, a driver that starts with the flag
/// unset presents `ColorB`, `ColorA`, `ColorB`, .. in turn, and no two
/// cycles in a row present the same colour.
pub proof fn lemma_flicker_alternates(outcomes: Seq<Acquisition>)
    requires
        forall|k: int| 0 <= k < outcomes.len() ==> outcomes[k] == Acquisition::Acquired,
    ensures
        flicker_trace(false, outcomes).len() == outcomes.len(),
        forall|k: int|
            0 <= k < outcomes.len() ==> #[trigger] flicker_trace(false, outcomes)[k]
                == FrameAction::Present(
                if k % 2 == 0 {
                    FillColor::ColorB
                } else {
                    FillColor::ColorA
                },
            ),
        forall|k: int|
            0 <= k && k + 1 < outcomes.len() ==> #[trigger] flicker_trace(false, outcomes)[k]
                != flicker_trace(false, outcomes)[k + 1],
{
    lemma_trace_by_parity(false, outcomes);
}

/// A failed acquisition costs its own cycle and nothing else: cycle `k` is
/// skipped, and the cycle after it acts exactly as it would have acted had
/// the image of cycle `k` been acquired.
pub proof fn lemma_failure_skips_one_cycle(flag: bool, outcomes: Seq<Acquisition>, k: int)
    requires
        0 <= k && k + 1 < outcomes.len(),
        outcomes[k] == Acquisition::Failed,
    ensures
        flicker_trace(flag, outcomes)[k] == FrameAction::Skip,
        flicker_trace(flag, outcomes)[k + 1] == flicker_trace(
            flag,
            outcomes.update(k, Acquisition::Acquired),
        )[k + 1],
        flicker_trace(flag, outcomes)[k + 1] == frame_action(
            !flag_after(flag, k as nat),
            outcomes[k + 1],
        ),
{
    lemma_trace_by_parity(flag, outcomes);
    lemma_trace_by_parity(flag, outcomes.update(k, Acquisition::Acquired));
}

} // verus!
