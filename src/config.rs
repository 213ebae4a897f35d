use vstd::prelude::*;

verus! {

/// The scenes that the renderer knows how to assemble.
#[derive(Copy, Clone, PartialEq, Eq, Debug, Structural)]
pub enum Scene {
    Complex,
    CheckeredSphere,
    Earth,
    Perlin,
    Quads,
    SimpleLight,
    CornellBox,
}

/// Command-line settings of a render.
#[derive(Copy, Clone, Debug)]
pub struct Args {
    pub depth: u32,
    pub image_width: u32,
    pub image_height: u32,
    pub samples_per_pixel: u32,
    pub scene: Scene,
}

/// Size and sampling effort of the produced image.
#[derive(Copy, Clone, PartialEq, Eq, Debug, Structural)]
pub struct OutputQuality {
    pub image_width: u32,
    pub image_height: u32,
    pub samples_per_pixel: u32,
    pub max_depth: u32,
}

impl OutputQuality {
    /// The quality that the command-line settings ask for.
    pub fn from_args(args: &Args) -> (r: OutputQuality)
        ensures
            r.image_width == args.image_width,
            r.image_height == args.image_height,
            r.samples_per_pixel == args.samples_per_pixel,
            r.max_depth == args.depth,
    {
        OutputQuality {
            image_width: args.image_width,
            image_height: args.image_height,
            samples_per_pixel: args.samples_per_pixel,
            max_depth: args.depth,
        }
    }
}

} // verus!
