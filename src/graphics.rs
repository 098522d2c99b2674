use vstd::prelude::*;

verus! {

/// A grayscale image, one byte per pixel, row by row.
pub struct Framebuffer {
    pub width: usize,
    pub height: usize,
    pub pixels: Vec<u8>,
}

impl Framebuffer {
    /// A black image of the given size.
    pub fn new(width: usize, height: usize) -> (r: Self)
        requires
            width * height <= usize::MAX,
        ensures
            r.width == width,
            r.height == height,
            r.pixels@ == Seq::new((width * height) as nat, |i: int| 0u8),
    {
        let r = Self { width, height, pixels: vec![0; width * height] };
        assert(r.pixels@ =~= Seq::new((width * height) as nat, |i: int| 0u8));
        r
    }
}

} // verus!
