//! The machines that can run a render.

use vstd::prelude::*;

pub mod cpu;
pub mod wgpu;

verus! {

/// Where the rays are traced.
#[derive(Clone, Copy, Debug, PartialEq, Eq, Structural)]
pub enum RendererBackend {
    /// On the processor, one block of pixels per worker thread.
    CPU,
    /// On the graphics processor, from buffers laid out for a compute
    /// pipeline.
    WGPU,
}

impl Default for RendererBackend {
    fn default() -> (r: RendererBackend)
        ensures
            r == RendererBackend::CPU,
    {
        RendererBackend::CPU
    }
}

} // verus!
