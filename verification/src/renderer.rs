//! What a render is asked to do.

use vstd::prelude::*;
use crate::renderer::backend::RendererBackend;

pub mod backend;

verus! {

/// The settings of a render.
#[derive(Clone, Copy, Debug)]
pub struct RendererOptions {
    /// Rays per pixel.
    pub samples: usize,
    /// The most bounces that a path takes.
    pub max_ray_depth: usize,
    /// Whether to draw the cost of the hierarchy in place of the scene.
    pub debug_mode: bool,
    /// Width and height of the image, in pixels.
    pub output_image_dimensions: (usize, usize),
    pub backend: RendererBackend,
}

impl RendererOptions {
    /// Whether a render can be made with these settings: the image has
    /// pixels, a path may bounce, and every pixel gets a sample.
    pub open spec fn valid(self) -> bool {
        &&& self.output_image_dimensions.0 > 0
        &&& self.output_image_dimensions.1 > 0
        &&& self.max_ray_depth > 0
        &&& self.samples > 0
    }

    /// The number of rays that are traced and averaged for one pixel: the
    /// number of samples, or one for the picture of the hierarchy, which
    /// has no noise to average out.
    pub fn sample_count(&self) -> (r: usize)
        ensures
            r == if self.debug_mode {
                1
            } else {
                self.samples
            },
    {
        if self.debug_mode {
            1
        } else {
            self.samples
        }
    }
}

/// One sample per pixel, six bounces, 1920 by 1080 pixels, on the processor.
pub open spec fn default_options() -> RendererOptions {
    RendererOptions {
        samples: 1,
        max_ray_depth: 6,
        debug_mode: false,
        output_image_dimensions: (1920, 1080),
        backend: RendererBackend::CPU,
    }
}

impl Default for RendererOptions {
    fn default() -> (r: RendererOptions)
        ensures
            r == default_options(),
    {
        RendererOptions {
            samples: 1,
            max_ray_depth: 6,
            debug_mode: false,
            output_image_dimensions: (1920, 1080),
            backend: RendererBackend::CPU,
        }
    }
}

/// A renderer: settings that have been found valid.
#[derive(Clone, Copy, Debug)]
pub struct Renderer {
    pub options: RendererOptions,
}

impl Renderer {
    /// A renderer with the given settings, or nothing if a dimension of the
    /// image, the number of bounces or the number of samples is zero.
    pub fn new(options: RendererOptions) -> (r: Option<Renderer>)
        ensures
            r.is_some() <==> options.valid(),
            r.is_some() ==> r.unwrap().options == options,
    {
        if options.output_image_dimensions.0 == 0 || options.output_image_dimensions.1 == 0 {
            return None;
        }
        if options.max_ray_depth == 0 {
            return None;
        }
        if options.samples == 0 {
            return None;
        }
        Some(Renderer { options })
    }
}

impl Default for Renderer {
    fn default() -> (r: Renderer)
        ensures
            r.options == default_options(),
    {
        Renderer { options: RendererOptions::default() }
    }
}

} // verus!
