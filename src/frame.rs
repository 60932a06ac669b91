use vstd::prelude::*;
use vstd::arithmetic::div_mod::lemma_fundamental_div_mod_converse;
use crate::color::{Rgb, ColorScheme, color_for, color_of};
use crate::escape::{IterationResult, is_valid_result};

verus! {

/// A rendered image: `width * height` colours in row-major order.
pub struct Frame {
    pub width: usize,
    pub height: usize,
    pub pixels: Vec<Rgb>,
}

/// Pixel `(x, y)` of a row-major image whose rows are `width` pixels long
/// stands at this index.
pub open spec fn pixel_index(x: int, y: int, width: int) -> int {
    y * width + x
}

/// `c` is the colour that `scheme` gives to a result that `eval` may return
/// for pixel `(x, y)`.
pub open spec fn shows<F: Fn(usize, usize) -> IterationResult>(
    eval: F,
    scheme: ColorScheme,
    x: usize,
    y: usize,
    c: Rgb,
) -> bool {
    exists|res: IterationResult| #[trigger] eval.ensures((x, y), res) && c == color_of(scheme, res)
}

impl Frame {
    /// The buffer holds one colour per pixel.
    pub open spec fn wf(&self) -> bool {
        &&& self.pixels@.len() == self.width * self.height
        &&& self.width * self.height <= usize::MAX
    }

    /// Colour of pixel `(x, y)`.
    pub fn pixel(&self, x: usize, y: usize) -> (c: Rgb)
        requires
            self.wf(),
            x < self.width,
            y < self.height,
        ensures
            c == self.pixels@[pixel_index(x as int, y as int, self.width as int)],
    {
        proof {
            lemma_index_in_image(x as int, y as int, self.width as int, self.height as int);
        }
        self.pixels[y * self.width + x]
    }
}

proof fn lemma_index_in_image(x: int, y: int, width: int, height: int)
    requires
        0 <= x < width,
        0 <= y < height,
    ensures
        0 <= y * width + x < width * height,
        (y + 1) * width <= width * height,
{
    assert(0 <= y * width + x < width * height && (y + 1) * width <= width * height)
        by (nonlinear_arith)
        requires
            0 <= x < width,
            0 <= y < height,
    {
        assert((y + 1) * width <= height * width);
    }
}

proof fn lemma_index_coords(x: int, y: int, width: int)
    requires
        0 <= x < width,
        0 <= y,
    ensures
        (y * width + x) % width == x,
        (y * width + x) / width == y,
{
    lemma_fundamental_div_mod_converse(y * width + x, width, y, x);
}

/// Renders a `width` by `height` image: pixel `(x, y)`, visited in row-major
/// order, gets the colour that `scheme` gives to `eval(x, y)`, and stands at
/// index `y * width + x`.
pub fn render<F: Fn(usize, usize) -> IterationResult>(
    width: usize,
    height: usize,
    scheme: ColorScheme,
    eval: F,
) -> (frame: Frame)
    requires
        width >= 1,
        height >= 1,
        width * height <= usize::MAX,
        forall|x: usize, y: usize| x < width && y < height ==> eval.requires((x, y)),
        forall|x: usize, y: usize, res: IterationResult|
            #[trigger] eval.ensures((x, y), res) ==> is_valid_result(res),
    ensures
        frame.width == width,
        frame.height == height,
        frame.wf(),
        forall|i: int|
            0 <= i < width * height ==> shows(
                eval,
                scheme,
                (i % width as int) as usize,
                (i / width as int) as usize,
                #[trigger] frame.pixels@[i],
            ),
{
    let mut pixels: Vec<Rgb> = Vec::new();
    let mut y: usize = 0;
    while y < height
        invariant
            width >= 1,
            y <= height,
            width * height <= usize::MAX,
            pixels@.len() == y * width,
            forall|x: usize, y: usize| x < width && y < height ==> eval.requires((x, y)),
            forall|x: usize, y: usize, res: IterationResult|
                #[trigger] eval.ensures((x, y), res) ==> is_valid_result(res),
            forall|i: int|
                0 <= i < pixels@.len() ==> shows(
                    eval,
                    scheme,
                    (i % width as int) as usize,
                    (i / width as int) as usize,
                    #[trigger] pixels@[i],
                ),
        decreases height - y,
    {
        proof {
            lemma_index_in_image(0, y as int, width as int, height as int);
        }
        let mut x: usize = 0;
        while x < width
            invariant
                width >= 1,
                x <= width,
                y < height,
                (y + 1) * width <= width * height,
                width * height <= usize::MAX,
                pixels@.len() == y * width + x,
                forall|x: usize, y: usize| x < width && y < height ==> eval.requires((x, y)),
                forall|x: usize, y: usize, res: IterationResult|
                    #[trigger] eval.ensures((x, y), res) ==> is_valid_result(res),
                forall|i: int|
                    0 <= i < pixels@.len() ==> shows(
                        eval,
                        scheme,
                        (i % width as int) as usize,
                        (i / width as int) as usize,
                        #[trigger] pixels@[i],
                    ),
            decreases width - x,
        {
            let res = eval(x, y);
            let c = color_for(scheme, res);
            proof {
                lemma_index_coords(x as int, y as int, width as int);
                assert(shows(eval, scheme, x, y, c));
            }
            pixels.push(c);
            x = x + 1;
        }
        assert((y + 1) * width == y * width + width) by (nonlinear_arith);
        y = y + 1;
    }
    proof {
        assert(y == height);
        assert(height * width == width * height) by (nonlinear_arith);
    }
    Frame { width, height, pixels }
}

} // verus!
