//! The pass that draws the resolved image into the swapchain image.

use vstd::prelude::*;
use crate::config::{Config, Size};
use crate::render::{renderable, working_dimensions, working_size, Draw, RenderContext};

verus! {

/// What the copy to the screen draws: a strip of four vertices that covers
/// the screen, textured with the part of the source that holds the picture.
#[derive(Clone, Copy, Debug, PartialEq, Eq, Structural)]
pub struct ScreenCopy {
    pub draw: Draw,
    /// Size of the sampled texture, padding included.
    pub source: Size,
    /// The part of the source, from its origin, that is shown. The padding
    /// lies outside it.
    pub visible: Size,
}

/// The copy of an output of `size` to the screen.
pub open spec fn screen_copy(size: Size) -> ScreenCopy {
    ScreenCopy {
        draw: Draw { vertices: 4, instances: 1 },
        source: working_size(size),
        visible: size,
    }
}

/// The plan of the copy to the screen.
pub struct CopyToScreen {
    size: Size,
    padded: Size,
}

impl CopyToScreen {
    #[verifier::type_invariant]
    spec fn padded_to_tiles(self) -> bool {
        renderable(self.size) && self.padded == working_size(self.size)
    }

    /// The logical output size that the pass was set up for.
    pub closed spec fn size(self) -> Size {
        self.size
    }

    /// Sets the pass up for `config`. The resolve pass must have registered
    /// its target, which this pass samples.
    pub fn new(context: &RenderContext, config: &Config) -> (copy: CopyToScreen)
        requires
            renderable(config.size),
            context.postprocess_target is Some,
        ensures
            copy.size() == config.size,
    {
        CopyToScreen { size: config.size, padded: working_dimensions(&config.size) }
    }

    /// What to draw into the swapchain image.
    pub fn copy_to_screen(&self) -> (copy: ScreenCopy)
        ensures
            copy == screen_copy(self.size()),
            copy.visible.width <= copy.source.width,
            copy.visible.height <= copy.source.height,
    {
        proof {
            use_type_invariant(self);
            crate::render::lemma_working_size(self.size);
        }
        ScreenCopy {
            draw: Draw { vertices: 4, instances: 1 },
            source: self.padded,
            visible: self.size,
        }
    }
}

} // verus!
