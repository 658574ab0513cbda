//! The trace pass: one dispatch per sample into the accumulation target.

use vstd::prelude::*;
use crate::config::{Config, Size};
use crate::render::{
    renderable, tile_grid, tiles_over, working_dimensions, working_size, Dispatch, RenderContext,
    TextureDesc, TextureFormat,
};

verus! {

/// One dispatch of the trace program. The sample index reaches the program
/// as a per-dispatch constant, by which it seeds its random numbers.
#[derive(Clone, Copy, Debug, PartialEq, Eq, Structural)]
pub struct TraceDispatch {
    pub sample: u32,
    pub grid: Dispatch,
}

/// The accumulation target for an output of `size`: a read-write storage
/// image of four floats per texel, padded to whole tiles.
pub open spec fn render_target_desc(size: Size) -> TextureDesc {
    TextureDesc {
        width: working_size(size).width,
        height: working_size(size).height,
        format: TextureFormat::Rgba32Float,
        storage_binding: true,
        copy_src: false,
        texture_binding: false,
    }
}

/// The plan of the trace pass.
pub struct Renderer {
    size: Size,
    padded: Size,
    samples: u32,
}

impl Renderer {
    #[verifier::type_invariant]
    spec fn padded_to_tiles(self) -> bool {
        renderable(self.size) && self.padded == working_size(self.size)
    }

    /// The logical output size that the pass was set up for.
    pub closed spec fn size(self) -> Size {
        self.size
    }

    /// The number of samples accumulated per frame.
    pub closed spec fn samples(self) -> u32 {
        self.samples
    }

    /// Sets the pass up for `config` and registers its target in `context`.
    pub fn new(context: &mut RenderContext, config: &Config) -> (renderer: Renderer)
        requires
            renderable(config.size),
        ensures
            renderer.size() == config.size,
            renderer.samples() == config.samples,
            final(context).rt_render_target == Some(render_target_desc(config.size)),
            final(context).postprocess_target == old(context).postprocess_target,
    {
        let renderer = Renderer {
            size: config.size,
            padded: working_dimensions(&config.size),
            samples: config.samples,
        };
        context.rt_render_target = Some(renderer.render_target());
        renderer
    }

    /// The dispatch that traces sample number `sample` of a frame, or `None`
    /// once `sample` has reached the number of samples per frame: then all
    /// dispatches of the frame have been issued and the device is to be
    /// waited for.
    pub fn render(&self, sample: u32) -> (dispatch: Option<TraceDispatch>)
        ensures
            dispatch == if sample < self.samples() {
                Some(TraceDispatch { sample, grid: tile_grid(working_size(self.size())) })
            } else {
                None
            },
    {
        proof {
            use_type_invariant(self);
        }
        if sample < self.samples {
            Some(TraceDispatch { sample, grid: tiles_over(&self.padded) })
        } else {
            None
        }
    }

    /// The texture that the pass accumulates into.
    pub fn render_target(&self) -> (desc: TextureDesc)
        ensures
            desc == render_target_desc(self.size()),
    {
        proof {
            use_type_invariant(self);
        }
        TextureDesc {
            width: self.padded.width,
            height: self.padded.height,
            format: TextureFormat::Rgba32Float,
            storage_binding: true,
            copy_src: false,
            texture_binding: false,
        }
    }
}

} // verus!
