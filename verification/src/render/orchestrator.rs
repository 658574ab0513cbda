//! The order of the passes within a frame.
//!
//! The orchestrator decides; the program around it acts. It is told what
//! happened to the last command and answers with the next one. Within a
//! frame the commands are, in this order: acquire the image to present
//! into, one trace dispatch per sample, a fence, the resolve dispatch, the
//! copy to the screen.

use vstd::prelude::*;
use crate::config::{Config, Size};
use crate::render::copy_to_screen::{screen_copy, ScreenCopy};
use crate::render::renderer::TraceDispatch;
use crate::render::{
    renderable, tile_grid, working_size, CopyToScreen, Dispatch, PostProcessor, RenderContext,
    Renderer,
};

verus! {

/// What the program reports to the orchestrator.
#[derive(Clone, Copy, Debug, PartialEq, Eq, Structural)]
pub enum Event {
    /// A frame is wanted.
    FrameRequested,
    /// The last command was carried out.
    Completed,
    /// The last command failed.
    Failed,
}

/// What the orchestrator asks the program to do next.
#[derive(Clone, Copy, Debug, PartialEq, Eq, Structural)]
pub enum Command {
    /// There is nothing to do for this event.
    Nothing,
    /// Acquire the swapchain image of this frame.
    Acquire,
    /// Submit one dispatch of the trace program.
    Trace(TraceDispatch),
    /// Wait until the device has finished all that was submitted.
    Fence,
    /// Submit the dispatch of the resolve program.
    PostProcess(Dispatch),
    /// Draw the resolved image into the acquired image and present it.
    PresentCopy(ScreenCopy),
    /// The frame is complete.
    FrameDone,
    /// The frame is given up; report the failure.
    Abandon,
}

/// Where in a frame the orchestrator stands: which command is under way.
#[derive(Clone, Copy, Debug, PartialEq, Eq, Structural)]
pub enum Phase {
    /// No frame is under way.
    Idle,
    Acquiring,
    /// `issued` trace dispatches have been handed out; the last of them is
    /// under way.
    Tracing { issued: u32 },
    Fencing,
    PostProcessing,
    Presenting,
}

/// The command number `k` of a frame, counted from 0.
pub open spec fn schedule(size: Size, samples: u32, k: int) -> Command {
    if k == 0 {
        Command::Acquire
    } else if 1 <= k <= samples {
        Command::Trace(
            TraceDispatch { sample: (k - 1) as u32, grid: tile_grid(working_size(size)) },
        )
    } else if k == samples + 1 {
        Command::Fence
    } else if k == samples + 2 {
        Command::PostProcess(tile_grid(working_size(size)))
    } else if k == samples + 3 {
        Command::PresentCopy(screen_copy(size))
    } else {
        Command::FrameDone
    }
}

/// The phase in which command number `k` of a frame is under way.
pub open spec fn phase_at(samples: u32, k: int) -> Phase {
    if k == 0 {
        Phase::Acquiring
    } else if 1 <= k <= samples {
        Phase::Tracing { issued: k as u32 }
    } else if k == samples + 1 {
        Phase::Fencing
    } else if k == samples + 2 {
        Phase::PostProcessing
    } else if k == samples + 3 {
        Phase::Presenting
    } else {
        Phase::Idle
    }
}

/// The number of the command that is under way in `phase`.
pub open spec fn position(phase: Phase, samples: u32) -> int {
    match phase {
        Phase::Acquiring => 0,
        Phase::Tracing { issued } => issued as int,
        Phase::Fencing => samples + 1,
        Phase::PostProcessing => samples + 2,
        Phase::Presenting => samples + 3,
        Phase::Idle => samples + 4,
    }
}

/// The place of a command's pass in the fixed order of a frame.
pub open spec fn pass_rank(command: Command) -> int {
    match command {
        Command::Nothing => 0,
        Command::Acquire => 1,
        Command::Trace(_) => 2,
        Command::Fence => 3,
        Command::PostProcess(_) => 4,
        Command::PresentCopy(_) => 5,
        Command::FrameDone => 6,
        Command::Abandon => 7,
    }
}

/// The commands of a frame come pass by pass: whatever comes later in the
/// schedule belongs to the same pass or to a later one, and within the
/// trace pass the samples are numbered as they are issued.
pub proof fn lemma_passes_in_order(size: Size, samples: u32, j: int, k: int)
    requires
        0 <= j <= k,
    ensures
        pass_rank(schedule(size, samples, j)) <= pass_rank(schedule(size, samples, k)),
        schedule(size, samples, j) matches Command::Trace(first) ==> first.sample == j - 1,
        (schedule(size, samples, j) is Trace) <==> 1 <= j <= samples,
{
}

/// The sequencer of the three passes.
pub struct Orchestrator {
    renderer: Renderer,
    post_processor: PostProcessor,
    copy_to_screen: CopyToScreen,
    phase: Phase,
}

impl Orchestrator {
    #[verifier::type_invariant]
    spec fn consistent(self) -> bool {
        &&& renderable(self.renderer.size())
        &&& self.post_processor.size() == self.renderer.size()
        &&& self.copy_to_screen.size() == self.renderer.size()
        &&& self.phase matches Phase::Tracing { issued } ==> 1 <= issued <= self.renderer.samples()
    }

    /// The logical output size.
    pub closed spec fn size(self) -> Size {
        self.renderer.size()
    }

    /// The number of samples per frame.
    pub closed spec fn samples(self) -> u32 {
        self.renderer.samples()
    }

    /// Where in a frame the orchestrator stands.
    pub closed spec fn phase(self) -> Phase {
        self.phase
    }

    /// Sets the three passes up for `config`, each after the one whose
    /// output it reads. No frame is under way.
    pub fn new(config: &Config) -> (orchestrator: Orchestrator)
        requires
            renderable(config.size),
        ensures
            orchestrator.size() == config.size,
            orchestrator.samples() == config.samples,
            orchestrator.phase() == Phase::Idle,
    {
        let mut context = RenderContext::new();
        let renderer = Renderer::new(&mut context, config);
        let post_processor = PostProcessor::new(&mut context, config);
        let copy_to_screen = CopyToScreen::new(&context, config);
        Orchestrator { renderer, post_processor, copy_to_screen, phase: Phase::Idle }
    }

    /// The plan of the trace pass.
    pub fn renderer(&self) -> (renderer: &Renderer)
        ensures
            renderer.size() == self.size(),
            renderer.samples() == self.samples(),
    {
        &self.renderer
    }

    /// The plan of the resolve pass.
    pub fn post_processor(&self) -> (post: &PostProcessor)
        ensures
            post.size() == self.size(),
    {
        proof {
            use_type_invariant(self);
        }
        &self.post_processor
    }

    /// The plan of the copy to the screen.
    pub fn copy_to_screen(&self) -> (copy: &CopyToScreen)
        ensures
            copy.size() == self.size(),
    {
        proof {
            use_type_invariant(self);
        }
        &self.copy_to_screen
    }

    /// The trace dispatch number `issued` of the frame, or the fence once
    /// all have been issued.
    fn after_traces(&mut self, issued: u32) -> (command: Command)
        requires
            issued <= old(self).samples(),
        ensures
            command == schedule(old(self).size(), old(self).samples(), issued + 1),
            final(self).phase() == phase_at(old(self).samples(), issued + 1),
            final(self).size() == old(self).size(),
            final(self).samples() == old(self).samples(),
    {
        proof {
            use_type_invariant(&*self);
        }
        match self.renderer.render(issued) {
            Some(dispatch) => {
                self.phase = Phase::Tracing { issued: issued + 1 };
                Command::Trace(dispatch)
            },
            None => {
                self.phase = Phase::Fencing;
                Command::Fence
            },
        }
    }

    /// Takes note of `event` and says what to do next.
    ///
    /// A frame starts when one is requested while none is under way. Each
    /// completed command is followed by the next of the schedule. A failure
    /// gives the whole frame up, at whatever point: nothing of it is
    /// retried, and the next request starts a new frame. A request that
    /// comes while a frame is under way changes nothing: a frame that has
    /// begun runs to its end.
    pub fn advance(&mut self, event: Event) -> (command: Command)
        ensures
            final(self).size() == old(self).size(),
            final(self).samples() == old(self).samples(),
            old(self).phase() is Idle && event is FrameRequested ==> command == Command::Acquire
                && final(self).phase() == Phase::Acquiring,
            old(self).phase() is Idle && !(event is FrameRequested) ==> command == Command::Nothing
                && final(self).phase() == Phase::Idle,
            !(old(self).phase() is Idle) && event is FrameRequested ==> command == Command::Nothing
                && final(self).phase() == old(self).phase(),
            !(old(self).phase() is Idle) && event is Failed ==> command == Command::Abandon
                && final(self).phase() == Phase::Idle,
            !(old(self).phase() is Idle) && event is Completed ==> {
                let next = position(old(self).phase(), old(self).samples()) + 1;
                &&& command == schedule(old(self).size(), old(self).samples(), next)
                &&& final(self).phase() == phase_at(old(self).samples(), next)
            },
    {
        proof {
            use_type_invariant(&*self);
        }
        match (self.phase, event) {
            (Phase::Idle, Event::FrameRequested) => {
                self.phase = Phase::Acquiring;
                Command::Acquire
            },
            (Phase::Idle, _) => Command::Nothing,
            (_, Event::FrameRequested) => Command::Nothing,
            (_, Event::Failed) => {
                self.phase = Phase::Idle;
                Command::Abandon
            },
            (Phase::Acquiring, Event::Completed) => self.after_traces(0),
            (Phase::Tracing { issued }, Event::Completed) => self.after_traces(issued),
            (Phase::Fencing, Event::Completed) => {
                self.phase = Phase::PostProcessing;
                Command::PostProcess(self.post_processor.post_process())
            },
            (Phase::PostProcessing, Event::Completed) => {
                self.phase = Phase::Presenting;
                Command::PresentCopy(self.copy_to_screen.copy_to_screen())
            },
            (Phase::Presenting, Event::Completed) => {
                self.phase = Phase::Idle;
                Command::FrameDone
            },
        }
    }
}

} // verus!
