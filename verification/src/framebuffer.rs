//! The framebuffer that a render fills: a colour and a depth for each pixel,
//! stored row by row.
use vstd::prelude::*;

verus! {

/// A pixel's colour and depth.
#[derive(Clone, Copy, Debug)]
pub struct Pixel<C, D> {
    pub colour: C,
    pub depth: D,
}

/// The largest width or height (exclusive) that a new framebuffer may have.
pub const MAX_SIDE: u32 = 2048;

pub struct Framebuffer<C, D> {
    pub width: u32,
    pub height: u32,
    /// The pixels, row by row.
    pub pixels: Vec<Pixel<C, D>>,
}

impl<C: Copy, D: Copy> Framebuffer<C, D> {
    /// The pixels, row by row.
    pub open spec fn pixels(&self) -> Seq<Pixel<C, D>> {
        self.pixels@
    }

    pub open spec fn wf(&self) -> bool {
        &&& self.pixels().len() == self.width * self.height
        &&& self.width * self.height <= u32::MAX
    }

    pub open spec fn index_of(&self, x: u32, y: u32) -> int {
        y * self.width + x
    }

    /// The pixel at `(x, y)`.
    pub open spec fn at(&self, x: u32, y: u32) -> Pixel<C, D> {
        self.pixels()[self.index_of(x, y)]
    }

    /// A framebuffer of the given size with every pixel `blank`; both sides
    /// must be below 2048.
    pub fn new(width: u32, height: u32, blank: Pixel<C, D>) -> (r: Self)
        requires
            width < MAX_SIDE,
            height < MAX_SIDE,
        ensures
            r.wf(),
            r.width == width,
            r.height == height,
            r.pixels() == Seq::new((width * height) as nat, |i: int| blank),
    {
        proof {
            assert(width * height < 2048 * 2048) by (nonlinear_arith)
                requires
                    width < 2048,
                    height < 2048,
            ;
        }
        let n = width * height;
        let mut pixels: Vec<Pixel<C, D>> = Vec::new();
        let mut i: u32 = 0;
        while i < n
            invariant
                i <= n,
                pixels@ == Seq::new(i as nat, |k: int| blank),
            decreases n - i,
        {
            pixels.push(blank);
            i += 1;
            assert(pixels@ =~= Seq::new(i as nat, |k: int| blank));
        }
        Framebuffer { width, height, pixels }
    }

    fn framebuffer_index(&self, x: u32, y: u32) -> (r: usize)
        requires
            self.wf(),
            x < self.width,
            y < self.height,
        ensures
            r == self.index_of(x, y),
            r < self.pixels().len(),
    {
        proof {
            assert(y * self.width + x < self.width * self.height) by (nonlinear_arith)
                requires
                    x < self.width,
                    y < self.height,
            ;
            assert(y * self.width <= self.width * self.height) by (nonlinear_arith)
                requires
                    y < self.height,
            ;
        }
        (y * self.width + x) as usize
    }

    /// Sets the colour of the pixel at `(x, y)`.
    pub fn plot_pixel(&mut self, x: u32, y: u32, colour: &C)
        requires
            old(self).wf(),
            x < old(self).width,
            y < old(self).height,
        ensures
            final(self).wf(),
            final(self).width == old(self).width,
            final(self).height == old(self).height,
            final(self).pixels() == old(self).pixels().update(
                old(self).index_of(x, y),
                Pixel { colour: *colour, depth: old(self).at(x, y).depth },
            ),
    {
        let index = self.framebuffer_index(x, y);
        let old_px = self.pixels[index];
        self.pixels.set(index, Pixel { colour: *colour, depth: old_px.depth });
    }

    /// Sets the depth of the pixel at `(x, y)`.
    pub fn plot_depth(&mut self, x: u32, y: u32, depth: D)
        requires
            old(self).wf(),
            x < old(self).width,
            y < old(self).height,
        ensures
            final(self).wf(),
            final(self).width == old(self).width,
            final(self).height == old(self).height,
            final(self).pixels() == old(self).pixels().update(
                old(self).index_of(x, y),
                Pixel { colour: old(self).at(x, y).colour, depth },
            ),
    {
        let index = self.framebuffer_index(x, y);
        let old_px = self.pixels[index];
        self.pixels.set(index, Pixel { colour: old_px.colour, depth });
    }

    /// The depth of the pixel at `(x, y)`.
    pub fn get_depth(&self, x: u32, y: u32) -> (r: D)
        requires
            self.wf(),
            x < self.width,
            y < self.height,
        ensures
            r == self.at(x, y).depth,
    {
        let index = self.framebuffer_index(x, y);
        self.pixels[index].depth
    }

    /// The colour of the pixel at `(x, y)`.
    pub fn get_colour(&self, x: u32, y: u32) -> (r: C)
        requires
            self.wf(),
            x < self.width,
            y < self.height,
        ensures
            r == self.at(x, y).colour,
    {
        let index = self.framebuffer_index(x, y);
        self.pixels[index].colour
    }

    /// The pixels, row by row.
    pub fn pixel_list(&self) -> (r: &Vec<Pixel<C, D>>)
        ensures
            r@ == self.pixels(),
    {
        &self.pixels
    }
}

/// Total height of a list of framebuffers.
pub open spec fn total_height<C, D>(fbs: Seq<Framebuffer<C, D>>) -> int
    decreases fbs.len(),
{
    if fbs.len() == 0 {
        0
    } else {
        total_height(fbs.drop_last()) + fbs.last().height
    }
}

/// The pixels of a list of framebuffers, one after the other.
pub open spec fn stacked<C: Copy, D: Copy>(fbs: Seq<Framebuffer<C, D>>) -> Seq<Pixel<C, D>>
    decreases fbs.len(),
{
    if fbs.len() == 0 {
        Seq::empty()
    } else {
        stacked(fbs.drop_last()) + fbs.last().pixels()
    }
}

/// Framebuffers that can be stacked: at least one, all of the first one's
/// width, well formed, with a stacked size that fits in 32 bits.
pub open spec fn stackable<C: Copy, D: Copy>(fbs: Seq<Framebuffer<C, D>>) -> bool {
    &&& fbs.len() > 0
    &&& forall|k: int| 0 <= k < fbs.len() ==> (#[trigger] fbs[k]).wf() && fbs[k].width == fbs[0].width
    &&& total_height(fbs) <= u32::MAX
    &&& total_height(fbs) * fbs[0].width <= u32::MAX
}

proof fn lemma_stacked_len<C: Copy, D: Copy>(fbs: Seq<Framebuffer<C, D>>, w: u32)
    requires
        forall|k: int| 0 <= k < fbs.len() ==> (#[trigger] fbs[k]).wf() && fbs[k].width == w,
    ensures
        stacked(fbs).len() == total_height(fbs) * w,
        total_height(fbs) >= 0,
    decreases fbs.len(),
{
    if fbs.len() > 0 {
        let init = fbs.drop_last();
        assert forall|k: int| 0 <= k < init.len() implies (#[trigger] init[k]).wf() && init[k].width
            == w by {
            assert(init[k] == fbs[k]);
        }
        lemma_stacked_len(init, w);
        let last = fbs.last();
        assert(last == fbs[fbs.len() - 1]);
        assert(total_height(init) * w + last.height * w == (total_height(init) + last.height) * w)
            by (nonlinear_arith);
        assert(last.width * last.height == last.height * w) by (nonlinear_arith)
            requires
                last.width == w,
        ;
    }
}

impl<C: Copy, D: Copy> Framebuffer<C, D> {
    /// Stacks framebuffers of one width, the first on top.
    pub fn combine_rows(framebuffers: Vec<Self>) -> (r: Self)
        requires
            stackable(framebuffers@),
        ensures
            r.wf(),
            r.width == framebuffers@[0].width,
            r.height == total_height(framebuffers@),
            r.pixels() == stacked(framebuffers@),
    {
        let width = framebuffers[0].width;
        let ghost fbs = framebuffers@;
        let mut height: u32 = 0;
        let mut pixels: Vec<Pixel<C, D>> = Vec::new();
        let mut k: usize = 0;
        proof {
            lemma_stacked_len(fbs, width);
        }
        while k < framebuffers.len()
            invariant
                fbs == framebuffers@,
                stackable(fbs),
                width == fbs[0].width,
                k <= fbs.len(),
                height == total_height(fbs.take(k as int)),
                pixels@ == stacked(fbs.take(k as int)),
            decreases fbs.len() - k,
        {
            let fb = &framebuffers[k];
            proof {
                assert(fbs.take(k + 1).drop_last() =~= fbs.take(k as int));
                assert(fbs.take(k + 1).last() == fbs[k as int]);
                lemma_height_prefix(fbs, k + 1);
            }
            height = height + fb.height;
            let mut i: usize = 0;
            let ghost before = pixels@;
            while i < fb.pixels.len()
                invariant
                    i <= fb.pixels@.len(),
                    pixels@ == before + fb.pixels@.take(i as int),
                decreases fb.pixels@.len() - i,
            {
                pixels.push(fb.pixels[i]);
                i += 1;
                assert(pixels@ =~= before + fb.pixels@.take(i as int));
            }
            assert(fb.pixels@.take(i as int) =~= fb.pixels@);
            k += 1;
        }
        assert(fbs.take(fbs.len() as int) =~= fbs);
        proof {
            lemma_stacked_len(fbs, width);
            assert(total_height(fbs) * width == width * total_height(fbs)) by (nonlinear_arith);
        }
        Framebuffer { width, height, pixels }
    }
}

proof fn lemma_height_prefix<C: Copy, D: Copy>(fbs: Seq<Framebuffer<C, D>>, k: int)
    requires
        0 <= k <= fbs.len(),
        forall|j: int| 0 <= j < fbs.len() ==> (#[trigger] fbs[j]).height >= 0,
    ensures
        total_height(fbs.take(k)) <= total_height(fbs),
    decreases fbs.len() - k,
{
    if k < fbs.len() {
        lemma_height_prefix(fbs, k + 1);
        assert(fbs.take(k + 1).drop_last() =~= fbs.take(k));
    } else {
        assert(fbs.take(k) =~= fbs);
    }
}

proof fn lemma_index_injective(w: int, x: int, y: int, x2: int, y2: int)
    requires
        0 <= x < w,
        0 <= x2 < w,
        0 <= y,
        0 <= y2,
        y * w + x == y2 * w + x2,
    ensures
        x == x2,
        y == y2,
{
    if y < y2 {
        assert(y * w + x < y2 * w + x2) by (nonlinear_arith)
            requires
                y < y2,
                0 <= x < w,
                0 <= x2,
        ;
    } else if y2 < y {
        assert(y2 * w + x2 < y * w + x) by (nonlinear_arith)
            requires
                y2 < y,
                0 <= x2 < w,
                0 <= x,
        ;
    }
}

/// Reading a pixel after plotting a colour: the plotted pixel has the new
/// colour and keeps its depth; every other pixel is unchanged.
pub proof fn law_plot_pixel_then_read<C: Copy, D: Copy>(
    before: Framebuffer<C, D>,
    after: Framebuffer<C, D>,
    x: u32,
    y: u32,
    colour: C,
    x2: u32,
    y2: u32,
)
    requires
        before.wf(),
        x < before.width,
        y < before.height,
        x2 < before.width,
        y2 < before.height,
        after.width == before.width,
        after.height == before.height,
        after.pixels() == before.pixels().update(
            before.index_of(x, y),
            Pixel { colour, depth: before.at(x, y).depth },
        ),
    ensures
        after.at(x2, y2).colour == (if x2 == x && y2 == y {
            colour
        } else {
            before.at(x2, y2).colour
        }),
        after.at(x2, y2).depth == before.at(x2, y2).depth,
{
    let w = before.width as int;
    assert(y * w + x < w * before.height) by (nonlinear_arith)
        requires
            x < w,
            y < before.height,
    ;
    assert(y2 * w + x2 < w * before.height) by (nonlinear_arith)
        requires
            x2 < w,
            y2 < before.height,
    ;
    if before.index_of(x, y) == before.index_of(x2, y2) {
        lemma_index_injective(w, x as int, y as int, x2 as int, y2 as int);
    }
}

/// Reading a pixel after plotting a depth: the plotted pixel has the new
/// depth and keeps its colour; every other pixel is unchanged.
pub proof fn law_plot_depth_then_read<C: Copy, D: Copy>(
    before: Framebuffer<C, D>,
    after: Framebuffer<C, D>,
    x: u32,
    y: u32,
    depth: D,
    x2: u32,
    y2: u32,
)
    requires
        before.wf(),
        x < before.width,
        y < before.height,
        x2 < before.width,
        y2 < before.height,
        after.width == before.width,
        after.height == before.height,
        after.pixels() == before.pixels().update(
            before.index_of(x, y),
            Pixel { colour: before.at(x, y).colour, depth },
        ),
    ensures
        after.at(x2, y2).depth == (if x2 == x && y2 == y {
            depth
        } else {
            before.at(x2, y2).depth
        }),
        after.at(x2, y2).colour == before.at(x2, y2).colour,
{
    let w = before.width as int;
    assert(y * w + x < w * before.height) by (nonlinear_arith)
        requires
            x < w,
            y < before.height,
    ;
    assert(y2 * w + x2 < w * before.height) by (nonlinear_arith)
        requires
            x2 < w,
            y2 < before.height,
    ;
    if before.index_of(x, y) == before.index_of(x2, y2) {
        lemma_index_injective(w, x as int, y as int, x2 as int, y2 as int);
    }
}

proof fn lemma_stacked_at<C: Copy, D: Copy>(fbs: Seq<Framebuffer<C, D>>, w: u32, k: int, x: u32, y: u32)
    requires
        forall|j: int| 0 <= j < fbs.len() ==> (#[trigger] fbs[j]).wf() && fbs[j].width == w,
        0 <= k < fbs.len(),
        x < w,
        y < fbs[k].height,
    ensures
        (total_height(fbs.take(k)) + y) * w + x < stacked(fbs).len(),
        stacked(fbs)[(total_height(fbs.take(k)) + y) * w + x] == fbs[k].at(x, y),
    decreases fbs.len(),
{
    let init = fbs.drop_last();
    assert forall|j: int| 0 <= j < init.len() implies (#[trigger] init[j]).wf() && init[j].width
        == w by {
        assert(init[j] == fbs[j]);
    }
    lemma_stacked_len(init, w);
    lemma_stacked_len(fbs, w);
    let last = fbs[fbs.len() - 1];
    assert(last.width * last.height == last.height * w) by (nonlinear_arith)
        requires
            last.width == w,
    ;
    if k == fbs.len() - 1 {
        assert(fbs.take(k) =~= init);
        let t = total_height(init);
        assert((t + y) * w + x == t * w + (y * w + x)) by (nonlinear_arith);
        assert(y * w + x < last.height * w) by (nonlinear_arith)
            requires
                x < w,
                y < last.height,
        ;
        assert(stacked(fbs) == stacked(init) + last.pixels());
        assert(stacked(init).len() == t * w);
        assert((stacked(init) + last.pixels())[t * w + (y * w + x)] == last.pixels()[y * w + x]);
        assert(last.index_of(x, y) == y * w + x);
    } else {
        lemma_stacked_at(init, w, k, x, y);
        assert(init.take(k) =~= fbs.take(k));
        assert(init[k] == fbs[k]);
        assert(stacked(fbs) == stacked(init) + last.pixels());
        let idx = (total_height(fbs.take(k)) + y) * w + x;
        let pre = fbs.take(k);
        assert forall|j: int| 0 <= j < pre.len() implies (#[trigger] pre[j]).wf() && pre[j].width
            == w by {
            assert(pre[j] == fbs[j]);
        }
        lemma_stacked_len(pre, w);
        assert(idx >= 0) by (nonlinear_arith)
            requires
                idx == (total_height(pre) + y) * w + x,
                total_height(pre) >= 0,
                y >= 0,
                x >= 0,
                w >= 0,
        ;
        assert(idx < stacked(init).len());
        assert((stacked(init) + last.pixels())[idx] == stacked(init)[idx]);
    }
}

/// After stacking, the pixel `(x, y)` of the `k`-th framebuffer is the pixel
/// `(x, h + y)` of the whole, `h` being the height of those above it.
pub proof fn law_combined_pixel<C: Copy, D: Copy>(
    fbs: Seq<Framebuffer<C, D>>,
    combined: Framebuffer<C, D>,
    k: int,
    x: u32,
    y: u32,
)
    requires
        stackable(fbs),
        combined.width == fbs[0].width,
        combined.pixels() == stacked(fbs),
        0 <= k < fbs.len(),
        x < fbs[k].width,
        y < fbs[k].height,
    ensures
        0 <= total_height(fbs.take(k)) + y < total_height(fbs),
        combined.pixels()[(total_height(fbs.take(k)) + y) * combined.width + x] == fbs[k].at(x, y),
{
    lemma_stacked_at(fbs, fbs[0].width, k, x, y);
    lemma_stacked_len(fbs, fbs[0].width);
    lemma_stacked_len(fbs.take(k), fbs[0].width);
    let w = fbs[0].width as int;
    let i = (total_height(fbs.take(k)) + y) * w + x;
    assert(total_height(fbs.take(k)) + y < total_height(fbs)) by (nonlinear_arith)
        requires
            i < total_height(fbs) * w,
            i == (total_height(fbs.take(k)) + y) * w + x,
            0 <= x < w,
            total_height(fbs.take(k)) + y >= 0,
    ;
}

} // verus!
