//! The table through which the passes hand their textures on.

use vstd::prelude::*;
use crate::render::TextureDesc;

verus! {

/// The textures that one pass makes and a later pass binds. A slot is
/// empty until the pass that owns the texture has been set up.
#[derive(Clone, Copy, Debug, PartialEq, Eq, Structural)]
pub struct RenderContext {
    /// The accumulation target: written by the trace pass, read by the
    /// resolve pass.
    pub rt_render_target: Option<TextureDesc>,
    /// The displayable image: written by the resolve pass, sampled by the
    /// copy to the screen.
    pub postprocess_target: Option<TextureDesc>,
}

impl RenderContext {
    /// A table in which no pass has registered anything yet.
    pub fn new() -> (context: RenderContext)
        ensures
            context.rt_render_target is None,
            context.postprocess_target is None,
    {
        RenderContext { rt_render_target: None, postprocess_target: None }
    }
}

} // verus!
