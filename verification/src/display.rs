use vstd::prelude::*;

verus! {

/// Width of the framebuffer in pixels.
pub const WIDTH: usize = 64;

/// Height of the framebuffer in pixels.
pub const HEIGHT: usize = 32;

/// Number of pixels in the framebuffer.
pub const PIXELS: usize = 2048;

/// The pixel a read returns: the stored state for in-bounds coordinates,
/// false outside the canvas.
pub open spec fn spec_pixel(disp: Seq<bool>, x: int, y: int) -> bool {
    if 0 <= x < WIDTH && 0 <= y < HEIGHT {
        disp[y * WIDTH + x]
    } else {
        false
    }
}

/// An all-dark framebuffer.
pub open spec fn spec_blank_disp() -> Seq<bool> {
    Seq::new(PIXELS as nat, |i: int| false)
}

/// 64x32 monochrome framebuffer, stored row-major. Access outside the
/// canvas is a no-op (writes) or false (reads), never a fault.
pub struct Display {
    pub pixels: Vec<bool>,
}

impl View for Display {
    type V = Seq<bool>;

    open spec fn view(&self) -> Seq<bool> {
        self.pixels@
    }
}

impl Display {
    pub open spec fn wf(&self) -> bool {
        self@.len() == PIXELS
    }

    pub fn new() -> (d: Display)
        ensures
            d.wf(),
            d@ == spec_blank_disp(),
    {
        let mut pixels: Vec<bool> = Vec::new();
        while pixels.len() < PIXELS
            invariant
                pixels@.len() <= PIXELS,
                forall|i: int| 0 <= i < pixels@.len() ==> !pixels@[i],
            decreases PIXELS - pixels@.len(),
        {
            pixels.push(false);
        }
        let d = Display { pixels };
        proof {
            assert(d@ =~= spec_blank_disp());
        }
        d
    }

    pub fn clear(&mut self)
        requires
            old(self).wf(),
        ensures
            final(self).wf(),
            final(self)@ == spec_blank_disp(),
    {
        let mut i: usize = 0;
        while i < PIXELS
            invariant
                self@.len() == PIXELS,
                i <= PIXELS,
                forall|j: int| 0 <= j < i ==> !self@[j],
            decreases PIXELS - i,
        {
            self.pixels[i] = false;
            i = i + 1;
        }
        proof {
            assert(final(self)@ =~= spec_blank_disp());
        }
    }

    pub fn get_pixel(&self, x: usize, y: usize) -> (r: bool)
        requires
            self.wf(),
        ensures
            r == spec_pixel(self@, x as int, y as int),
    {
        if x < WIDTH && y < HEIGHT {
            self.pixels[y * WIDTH + x]
        } else {
            false
        }
    }

    pub fn toggle_pixel(&mut self, x: usize, y: usize)
        requires
            old(self).wf(),
        ensures
            final(self).wf(),
            final(self)@ == (if x < WIDTH && y < HEIGHT {
                old(self)@.update(y * WIDTH + x, !old(self)@[y * WIDTH + x])
            } else {
                old(self)@
            }),
    {
        if x < WIDTH && y < HEIGHT {
            let i = y * WIDTH + x;
            let cur = self.pixels[i];
            self.pixels[i] = !cur;
        }
    }
}

} // verus!
