use vstd::prelude::*;

pub mod graphics;

verus! {

/// Frames per second the loops aim at.
pub const FPS: u32 = 60;

/// Where the falling piece starts, in pixels from the top.
pub const START_POS: i32 = 40;

/// How far the falling piece drops per step, in pixels.
pub const DROP: i32 = 26;

/// The piece stops dropping once it is past this height.
pub const LAST_DROP_FROM: i32 = 466;

/// Time between two drops, in nanoseconds.
pub const DROP_INTERVAL_NANOS: u64 = 250_000_000;

/// The animation counter runs from 0 to this bound, not included.
pub const COUNTER_WRAP: i32 = 255;

/// What the window reported.
#[derive(Clone, Copy, Debug, PartialEq, Eq, Structural)]
pub enum WindowInput {
    /// The Escape key was pressed.
    EscapePressed,
    /// The window was asked to close.
    CloseRequested,
    /// The window changed size.
    Resized,
    /// Anything else.
    Other,
}

/// What the loop must do in answer to one window event, in this order:
/// tear the swapchain down, stop, or build a new swapchain.
#[derive(Clone, Copy, Debug, PartialEq, Eq, Structural)]
pub struct EventPlan {
    pub destroy_swapchain: bool,
    pub quit: bool,
    pub build_swapchain: bool,
}

/// Whether the input asks the game to stop.
pub open spec fn is_quit(input: WindowInput) -> bool {
    input == WindowInput::EscapePressed || input == WindowInput::CloseRequested
}

/// Whether the input stops the loop that has no swapchain to look after.
pub fn quit_requested(input: WindowInput) -> (q: bool)
    ensures
        q == is_quit(input),
{
    match input {
        WindowInput::EscapePressed => true,
        WindowInput::CloseRequested => true,
        _ => false,
    }
}

/// One second divided by `fps`, rounded down to whole nanoseconds.
pub open spec fn frame_budget_nanos(fps: u32) -> int {
    1_000_000_000int / (fps as int)
}

/// The frame budget minus the time a frame's work took, if any is left:
/// the budget is one second divided by `fps`, rounded down to whole
/// nanoseconds.
pub fn frame_sleep_nanos(fps: u32, work_nanos: u64) -> (r: Option<u64>)
    requires
        fps > 0,
    ensures
        work_nanos <= frame_budget_nanos(fps) ==> r == Some((frame_budget_nanos(fps) - work_nanos) as u64),
        work_nanos > frame_budget_nanos(fps) ==> r is None,
{
    let budget: u64 = 1_000_000_000u64 / (fps as u64);
    budget.checked_sub(work_nanos)
}

/// The decisions of the game's frame loop: where the falling piece is, the
/// animation counter, whether the swapchain must be rebuilt and whether one
/// exists.
pub struct FrameLoop {
    pos: i32,
    counter: i32,
    rebuild_swapchain: bool,
    has_swapchain: bool,
}

impl FrameLoop {
    pub closed spec fn spec_pos(self) -> int {
        self.pos as int
    }

    pub closed spec fn spec_counter(self) -> int {
        self.counter as int
    }

    pub closed spec fn spec_rebuild_swapchain(self) -> bool {
        self.rebuild_swapchain
    }

    pub closed spec fn spec_has_swapchain(self) -> bool {
        self.has_swapchain
    }

    /// What holds of every state of the loop: the piece is at one of its
    /// drop heights, from 40 down to 482, and the counter is below 255.
    pub open spec fn inv(self) -> bool {
        &&& START_POS <= self.spec_pos() <= LAST_DROP_FROM + DROP
        &&& (self.spec_pos() - START_POS) % (DROP as int) == 0
        &&& 0 <= self.spec_counter() < COUNTER_WRAP
    }

    /// What `handle_event` does: Escape or a close request stops the loop; a
    /// resize asks for a new swapchain; an existing swapchain is torn down
    /// when it must be rebuilt or the loop stops; unless the loop stops, a
    /// missing swapchain is built, which clears the rebuild request. The
    /// piece and the counter stay.
    pub open spec fn handled(before: FrameLoop, input: WindowInput, after: FrameLoop, plan: EventPlan) -> bool {
        let quitting = is_quit(input);
        let rebuild = before.spec_rebuild_swapchain() || input == WindowInput::Resized;
        let destroy = (rebuild || quitting) && before.spec_has_swapchain();
        let has = before.spec_has_swapchain() && !destroy;
        &&& plan.destroy_swapchain == destroy
        &&& plan.quit == quitting
        &&& plan.build_swapchain == (!quitting && !has)
        &&& after.spec_has_swapchain() == (has || !quitting)
        &&& after.spec_rebuild_swapchain() == (rebuild && (quitting || has))
        &&& after.spec_pos() == before.spec_pos()
        &&& after.spec_counter() == before.spec_counter()
    }

    /// A loop before its first event: the piece at the top, the counter at
    /// `counter`, no swapchain and nothing to rebuild.
    pub fn new(counter: i32) -> (s: FrameLoop)
        requires
            0 <= counter < COUNTER_WRAP,
        ensures
            s.inv(),
            s.spec_pos() == START_POS,
            s.spec_counter() == counter,
            !s.spec_rebuild_swapchain(),
            !s.spec_has_swapchain(),
    {
        FrameLoop { pos: START_POS, counter, rebuild_swapchain: false, has_swapchain: false }
    }

    /// Answers one window event: Escape or a close request stops the loop, a
    /// resize asks for a new swapchain; an existing swapchain is torn down
    /// when it must be rebuilt or the loop stops; unless the loop stops, a
    /// missing swapchain is built, which clears the rebuild request.
    pub fn handle_event(&mut self, input: WindowInput) -> (plan: EventPlan)
        requires
            old(self).inv(),
        ensures
            final(self).inv(),
            Self::handled(*old(self), input, *final(self), plan),
    {
        let quitting = quit_requested(input);
        if input == WindowInput::Resized {
            self.rebuild_swapchain = true;
        }
        let destroy = (self.rebuild_swapchain || quitting) && self.has_swapchain;
        if destroy {
            self.has_swapchain = false;
        }
        if quitting {
            return EventPlan { destroy_swapchain: destroy, quit: true, build_swapchain: false };
        }
        let build = !self.has_swapchain;
        if build {
            self.rebuild_swapchain = false;
            self.has_swapchain = true;
        }
        EventPlan { destroy_swapchain: destroy, quit: false, build_swapchain: build }
    }

    /// One turn of the loop after its event: the counter steps on, wrapping
    /// at 255; once more than a drop interval has passed since the timer was
    /// last reset, the timer is reset (the result says so) and the piece
    /// drops one tile unless it is already past the last drop height.
    pub fn advance(&mut self, timer_nanos: u64) -> (reset_timer: bool)
        requires
            old(self).inv(),
        ensures
            final(self).inv(),
            final(self).spec_counter() == (old(self).spec_counter() + 1) % (COUNTER_WRAP as int),
            reset_timer == (timer_nanos > DROP_INTERVAL_NANOS),
            final(self).spec_pos() == if reset_timer && old(self).spec_pos() <= LAST_DROP_FROM {
                old(self).spec_pos() + DROP
            } else {
                old(self).spec_pos()
            },
            final(self).spec_rebuild_swapchain() == old(self).spec_rebuild_swapchain(),
            final(self).spec_has_swapchain() == old(self).spec_has_swapchain(),
    {
        self.counter = (self.counter + 1) % COUNTER_WRAP;
        let reset = timer_nanos > DROP_INTERVAL_NANOS;
        if reset {
            if self.pos <= LAST_DROP_FROM {
                self.pos = self.pos + DROP;
            }
        }
        reset
    }

    /// Takes the swapchain's answer to the request for an image to draw on:
    /// its index, or, when it failed, image 0 and a request to rebuild the
    /// swapchain.
    pub fn acquired_image(&mut self, acquired: Option<u32>) -> (index: u32)
        requires
            old(self).inv(),
        ensures
            final(self).inv(),
            index == match acquired {
                Some(i) => i,
                None => 0,
            },
            final(self).spec_rebuild_swapchain() == (old(self).spec_rebuild_swapchain() || acquired is None),
            final(self).spec_has_swapchain() == old(self).spec_has_swapchain(),
            final(self).spec_pos() == old(self).spec_pos(),
            final(self).spec_counter() == old(self).spec_counter(),
    {
        match acquired {
            Some(i) => i,
            None => {
                self.rebuild_swapchain = true;
                0
            },
        }
    }

    /// Takes whether presenting the frame succeeded; a failure asks for the
    /// swapchain to be rebuilt.
    pub fn presented(&mut self, ok: bool)
        requires
            old(self).inv(),
        ensures
            final(self).inv(),
            final(self).spec_rebuild_swapchain() == (old(self).spec_rebuild_swapchain() || !ok),
            final(self).spec_has_swapchain() == old(self).spec_has_swapchain(),
            final(self).spec_pos() == old(self).spec_pos(),
            final(self).spec_counter() == old(self).spec_counter(),
    {
        if !ok {
            self.rebuild_swapchain = true;
        }
    }
}

/// Escape and a close request always stop the loop, tear down the
/// swapchain if there is one, and never build a new one.
pub proof fn lemma_quit_stops(before: FrameLoop, input: WindowInput, after: FrameLoop, plan: EventPlan)
    requires
        FrameLoop::handled(before, input, after, plan),
        is_quit(input),
    ensures
        plan.quit,
        plan.destroy_swapchain == before.spec_has_swapchain(),
        !plan.build_swapchain,
        !after.spec_has_swapchain(),
{
}

/// After every event that does not stop the loop, a swapchain exists and
/// no rebuild is pending: the frame can be drawn.
pub proof fn lemma_continue_has_swapchain(
    before: FrameLoop,
    input: WindowInput,
    after: FrameLoop,
    plan: EventPlan,
)
    requires
        FrameLoop::handled(before, input, after, plan),
        !plan.quit,
    ensures
        after.spec_has_swapchain(),
        !after.spec_rebuild_swapchain(),
{
}

/// A resize while a swapchain exists replaces it within the same event:
/// the old one is torn down and a new one is built.
pub proof fn lemma_resize_replaces_swapchain(before: FrameLoop, after: FrameLoop, plan: EventPlan)
    requires
        FrameLoop::handled(before, WindowInput::Resized, after, plan),
        before.spec_has_swapchain(),
    ensures
        plan.destroy_swapchain,
        plan.build_swapchain,
        !plan.quit,
{
}

/// A failed image acquisition or presentation is answered on the next
/// event that does not stop the loop: the swapchain is torn down and built
/// again.
pub proof fn lemma_failure_rebuilds_on_next_event(
    before: FrameLoop,
    input: WindowInput,
    after: FrameLoop,
    plan: EventPlan,
)
    requires
        FrameLoop::handled(before, input, after, plan),
        before.spec_rebuild_swapchain(),
        before.spec_has_swapchain(),
        !is_quit(input),
    ensures
        plan.destroy_swapchain,
        plan.build_swapchain,
{
}

impl FrameLoop {
    /// Where the falling piece is, in pixels from the top.
    pub fn pos(&self) -> (p: i32)
        ensures
            p == self.spec_pos(),
    {
        self.pos
    }

    /// The animation counter.
    pub fn counter(&self) -> (c: i32)
        ensures
            c == self.spec_counter(),
    {
        self.counter
    }

    /// Whether the swapchain must be rebuilt.
    pub fn rebuild_swapchain(&self) -> (r: bool)
        ensures
            r == self.spec_rebuild_swapchain(),
    {
        self.rebuild_swapchain
    }

    /// Whether a swapchain exists.
    pub fn has_swapchain(&self) -> (h: bool)
        ensures
            h == self.spec_has_swapchain(),
    {
        self.has_swapchain
    }
}

} // verus!
