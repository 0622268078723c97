use vstd::prelude::*;
use vstd::arithmetic::div_mod::{lemma_fundamental_div_mod_converse, lemma_multiply_divide_lt};
use vstd::arithmetic::mul::lemma_mul_inequality;

verus! {

/// Rows of the monochrome grid.
pub const ROWS: usize = 32;

/// Columns of the monochrome grid.
pub const COLS: usize = 64;

/// Pixels in the grid.
pub const PIXELS: usize = 2048;

/// Colour of a lit pixel in a presented frame.
pub const ON: u32 = 0xFFFFFF;

/// Colour of a dark pixel in a presented frame.
pub const OFF: u32 = 0x000000;

/// Index of the pixel at column `x`, row `y`, both taken modulo the grid size.
pub open spec fn pixel_index(x: int, y: int) -> int {
    (y % (ROWS as int)) * (COLS as int) + (x % (COLS as int))
}

/// Colour of pixel `j` of the frame that presents `display` with each grid
/// pixel as a `scale` by `scale` square, the frame laid out row by row.
pub open spec fn scaled_color(display: Seq<bool>, scale: int, j: int) -> u32 {
    let w = (COLS as int) * scale;
    if display[((j / w) / scale) * (COLS as int) + (j % w) / scale] {
        ON
    } else {
        OFF
    }
}

/// The 64x32 framebuffer, with the integer scale at which it is presented.
pub struct Renderer {
    scale: usize,
    display: Vec<bool>,
    width: usize,
    height: usize,
}

impl View for Renderer {
    type V = Seq<bool>;

    /// The pixels, row by row.
    closed spec fn view(&self) -> Seq<bool> {
        self.display@
    }
}

impl Renderer {
    /// Pixels of the host frame per grid pixel, in each direction.
    pub closed spec fn scale_spec(&self) -> nat {
        self.scale as nat
    }

    /// Width of the presented frame.
    pub open spec fn width_spec(&self) -> nat {
        (COLS as nat) * self.scale_spec()
    }

    /// Height of the presented frame.
    pub open spec fn height_spec(&self) -> nat {
        (ROWS as nat) * self.scale_spec()
    }

    pub closed spec fn wf(&self) -> bool {
        &&& self.display@.len() == PIXELS
        &&& self.scale > 0
        &&& self.width == COLS * self.scale
        &&& self.height == ROWS * self.scale
        &&& self.width * self.height <= usize::MAX
    }

    /// The grid holds exactly `PIXELS` pixels.
    pub proof fn lemma_len(&self)
        requires
            self.wf(),
        ensures
            self@.len() == PIXELS,
            self.scale_spec() > 0,
            self.width_spec() * self.height_spec() <= usize::MAX,
    {
    }

    /// Colour of pixel `j` of the presented frame, which is laid out row by row.
    pub open spec fn frame_color(&self, j: int) -> u32 {
        scaled_color(self@, self.scale_spec() as int, j)
    }

    /// A dark framebuffer presented at `scale` host pixels per grid pixel.
    pub fn new(scale: usize) -> (r: Self)
        requires
            scale > 0,
            (COLS * scale) * (ROWS * scale) <= usize::MAX,
        ensures
            r.wf(),
            r@ == Seq::new(PIXELS as nat, |_i: int| false),
            r.scale_spec() == scale,
    {
        proof {
            assert(COLS * scale <= (COLS * scale) * (ROWS * scale)) by (nonlinear_arith)
                requires scale > 0;
            assert(ROWS * scale <= (COLS * scale) * (ROWS * scale)) by (nonlinear_arith)
                requires scale > 0;
        }
        let width = COLS * scale;
        let height = ROWS * scale;
        let display = vec![false; PIXELS];
        let r = Renderer { scale, display, width, height };
        assert(r@ =~= Seq::new(PIXELS as nat, |_i: int| false));
        r
    }

    /// Whether the pixel at column `x`, row `y` (taken modulo the grid) is lit.
    pub fn is_on(&self, x: u8, y: u8) -> (r: bool)
        requires
            self.wf(),
        ensures
            r == self@[pixel_index(x as int, y as int)],
    {
        let px = (y as usize % ROWS) * COLS + (x as usize % COLS);
        self.display[px]
    }

    /// Flips the pixel at column `x`, row `y` (taken modulo the grid) and
    /// returns whether it was lit before, that is whether it went dark.
    pub fn xor_pixel(&mut self, x: u8, y: u8) -> (r: bool)
        requires
            old(self).wf(),
        ensures
            final(self).wf(),
            final(self).scale_spec() == old(self).scale_spec(),
            r == old(self)@[pixel_index(x as int, y as int)],
            final(self)@ == old(self)@.update(pixel_index(x as int, y as int), !r),
    {
        let px = (y as usize % ROWS) * COLS + (x as usize % COLS);
        let was = self.display[px];
        self.display.set(px, !was);
        was
    }

    /// Darkens every pixel.
    pub fn clear(&mut self)
        requires
            old(self).wf(),
        ensures
            final(self).wf(),
            final(self).scale_spec() == old(self).scale_spec(),
            final(self)@ == Seq::new(PIXELS as nat, |_i: int| false),
    {
        self.display = vec![false; PIXELS];
        assert(self@ =~= Seq::new(PIXELS as nat, |_i: int| false));
    }

    /// The frame to present: `width * height` colours row by row, each grid
    /// pixel drawn as a `scale` by `scale` square.
    pub fn render(&self) -> (buf: Vec<u32>)
        requires
            self.wf(),
        ensures
            buf@.len() == self.width_spec() * self.height_spec(),
            forall|j: int| 0 <= j < buf@.len() ==> buf@[j] == #[trigger] self.frame_color(j),
    {
        let mut buf: Vec<u32> = Vec::with_capacity(self.width * self.height);
        let mut h: usize = 0;
        while h < self.height
            invariant
                self.wf(),
                h <= self.height,
                buf@.len() == h * self.width,
                forall|j: int| 0 <= j < buf@.len() ==> buf@[j] == #[trigger] self.frame_color(j),
            decreases self.height - h,
        {
            let y = h / self.scale;
            proof {
                lemma_multiply_divide_lt(h as int, self.scale as int, ROWS as int);
                let (hh, ww, ht) = (h as int, self.width as int, self.height as int);
                assert(hh * ww + ww <= ww * ht) by (nonlinear_arith)
                    requires hh < ht, ww >= 0;
            }
            let mut w: usize = 0;
            while w < self.width
                invariant
                    self.wf(),
                    h < self.height,
                    w <= self.width,
                    y == h / self.scale,
                    y < ROWS,
                    h * self.width + self.width <= self.width * self.height,
                    buf@.len() == h * self.width + w,
                    forall|j: int| 0 <= j < buf@.len() ==> buf@[j] == #[trigger] self.frame_color(j),
                decreases self.width - w,
            {
                let x = w / self.scale;
                proof {
                    lemma_multiply_divide_lt(w as int, self.scale as int, COLS as int);
                    lemma_fundamental_div_mod_converse(
                        (h * self.width + w) as int,
                        self.width as int,
                        h as int,
                        w as int,
                    );
                    lemma_mul_inequality(y as int, (ROWS - 1) as int, COLS as int);
                }
                let px = y * COLS + x;
                if self.display[px] {
                    buf.push(ON);
                } else {
                    buf.push(OFF);
                }
                w = w + 1;
            }
            proof {
                let (hh, ww) = (h as int, self.width as int);
                assert(hh * ww + ww == (hh + 1) * ww) by (nonlinear_arith);
            }
            h = h + 1;
        }
        proof {
            assert(h * self.width == self.width * self.height) by (nonlinear_arith)
                requires h == self.height;
        }
        buf
    }
}

} // verus!
