//! An owned rectangular pixel region (pre-multiplied ARGB, one `u32` per
//! pixel, row-major), and the clipped blit that composites one region into
//! another. Widgets render into a `Surface`; the application keeps the full
//! rendering of its tree in one and patches it on damage.

use vstd::prelude::*;

verus! {

use vstd::arithmetic::div_mod::lemma_fundamental_div_mod_converse;

/// The fully transparent pixel.
pub const TRANSPARENT: u32 = 0;

/// A `w` by `h` region filled with one color.
pub open spec fn fill(w: int, h: int, color: u32) -> Seq<u32> {
    Seq::new((w * h) as nat, |k: int| color)
}

/// `src` (a `sw` by `sh` region) composited into `dest` (of row length `dw`)
/// at offset `(x, y)`, clipped to `dest`'s bounds: every destination cell
/// covered by `src` takes the source pixel, every other cell keeps its value.
/// Source pixels falling outside `dest` are dropped.
pub open spec fn blit(
    dest: Seq<u32>,
    dw: int,
    src: Seq<u32>,
    sw: int,
    sh: int,
    x: int,
    y: int,
) -> Seq<u32>
    recommends
        src.len() == sw * sh,
{
    Seq::new(
        dest.len(),
        |k: int|
            {
                let row = k / dw;
                let col = k % dw;
                if x <= col < x + sw && y <= row < y + sh {
                    src[(row - y) * sw + (col - x)]
                } else {
                    dest[k]
                }
            },
    )
}

/// Row `row`, column `col` of a `w`-wide region lies at cell `row * w + col`;
/// that cell is inside a `w` by `h` region and decomposes back into the same
/// row and column.
pub proof fn lemma_cell_index(row: int, col: int, w: int, h: int)
    requires
        0 <= row < h,
        0 <= col < w,
    ensures
        0 <= row * w + col < w * h,
        (row * w + col) / w == row,
        (row * w + col) % w == col,
{
    assert(0 <= row * w + col < w * h) by (nonlinear_arith)
        requires
            0 <= row < h,
            0 <= col < w,
    ;
    lemma_fundamental_div_mod_converse(row * w + col, w, row, col);
}

/// Compositing the same source at the same offset twice leaves exactly what
/// one composite leaves: the last write wins, nothing accumulates.
pub proof fn lemma_blit_idempotent(
    dest: Seq<u32>,
    dw: int,
    src: Seq<u32>,
    sw: int,
    sh: int,
    x: int,
    y: int,
)
    ensures
        blit(blit(dest, dw, src, sw, sh, x, y), dw, src, sw, sh, x, y) == blit(
            dest,
            dw,
            src,
            sw,
            sh,
            x,
            y,
        ),
{
    let once = blit(dest, dw, src, sw, sh, x, y);
    assert(blit(once, dw, src, sw, sh, x, y) =~= once);
}

/// An owned rectangular pixel region: `width * height` pixels, row-major.
pub struct Surface {
    pub width: u32,
    pub height: u32,
    pub pixels: Vec<u32>,
}

impl Surface {
    /// The pixel store holds exactly one `u32` per cell.
    pub open spec fn wf(&self) -> bool {
        &&& self.pixels@.len() == self.width as int * self.height as int
        &&& self.width as int * self.height as int <= usize::MAX
    }

    /// A surface of the given size with every pixel set to `color`.
    pub fn solid(width: u32, height: u32, color: u32) -> (s: Surface)
        requires
            width as int * height as int <= usize::MAX,
        ensures
            s.wf(),
            s.width == width,
            s.height == height,
            s.pixels@ == fill(width as int, height as int, color),
    {
        let n: usize = (width as usize) * (height as usize);
        let mut pixels: Vec<u32> = Vec::new();
        let mut i: usize = 0;
        while i < n
            invariant
                i <= n,
                pixels@.len() == i,
                forall|j: int| 0 <= j < i ==> pixels@[j] == color,
            decreases n - i,
        {
            pixels.push(color);
            i = i + 1;
        }
        let s = Surface { width, height, pixels };
        assert(s.pixels@ =~= fill(width as int, height as int, color));
        s
    }

    pub fn get_width(&self) -> (w: u32)
        ensures
            w == self.width,
    {
        self.width
    }

    pub fn get_height(&self) -> (h: u32)
        ensures
            h == self.height,
    {
        self.height
    }

    /// The pixel at column `x`, row `y`.
    pub fn get_pixel(&self, x: u32, y: u32) -> (p: u32)
        requires
            self.wf(),
            x < self.width,
            y < self.height,
        ensures
            p == self.pixels@[y as int * self.width as int + x as int],
    {
        proof {
            lemma_cell_index(y as int, x as int, self.width as int, self.height as int);
        }
        self.pixels[(y as usize) * (self.width as usize) + (x as usize)]
    }

    /// Sets the pixel at column `x`, row `y` to `p`.
    pub fn set_pixel(&mut self, x: u32, y: u32, p: u32)
        requires
            old(self).wf(),
            x < old(self).width,
            y < old(self).height,
        ensures
            final(self).wf(),
            final(self).width == old(self).width,
            final(self).height == old(self).height,
            final(self).pixels@ == old(self).pixels@.update(
                y as int * old(self).width as int + x as int,
                p,
            ),
    {
        proof {
            lemma_cell_index(y as int, x as int, self.width as int, self.height as int);
        }
        let k: usize = (y as usize) * (self.width as usize) + (x as usize);
        self.pixels[k] = p;
    }

    /// Overwrites every pixel with `color`.
    pub fn clear(&mut self, color: u32)
        requires
            old(self).wf(),
        ensures
            final(self).wf(),
            final(self).width == old(self).width,
            final(self).height == old(self).height,
            final(self).pixels@ == fill(old(self).width as int, old(self).height as int, color),
    {
        let n: usize = self.pixels.len();
        let mut k: usize = 0;
        while k < n
            invariant
                n == self.pixels@.len(),
                k <= n,
                self.width == old(self).width,
                self.height == old(self).height,
                forall|j: int| 0 <= j < k ==> self.pixels@[j] == color,
                forall|j: int| k <= j < n ==> self.pixels@[j] == old(self).pixels@[j],
            decreases n - k,
        {
            self.pixels[k] = color;
            k = k + 1;
        }
        assert(self.pixels@ =~= fill(old(self).width as int, old(self).height as int, color));
    }

    /// Composites `src` into `self` at offset `(x, y)`, clipped to `self`'s
    /// bounds: source pixels that fall outside are silently dropped.
    pub fn composite(&mut self, src: &Surface, x: u32, y: u32)
        requires
            old(self).wf(),
            src.wf(),
        ensures
            final(self).wf(),
            final(self).width == old(self).width,
            final(self).height == old(self).height,
            final(self).pixels@ == blit(
                old(self).pixels@,
                old(self).width as int,
                src.pixels@,
                src.width as int,
                src.height as int,
                x as int,
                y as int,
            ),
    {
        let ghost target = blit(
            old(self).pixels@,
            old(self).width as int,
            src.pixels@,
            src.width as int,
            src.height as int,
            x as int,
            y as int,
        );
        let dw: usize = self.width as usize;
        let n: usize = self.pixels.len();
        let mut k: usize = 0;
        while k < n
            invariant
                self.wf(),
                self.width == old(self).width,
                self.height == old(self).height,
                src.wf(),
                dw == self.width,
                n == self.pixels@.len(),
                k <= n,
                target == blit(
                    old(self).pixels@,
                    old(self).width as int,
                    src.pixels@,
                    src.width as int,
                    src.height as int,
                    x as int,
                    y as int,
                ),
                target.len() == n,
                forall|j: int| 0 <= j < k ==> self.pixels@[j] == target[j],
                forall|j: int| k <= j < n ==> self.pixels@[j] == old(self).pixels@[j],
            decreases n - k,
        {
            let row: usize = k / dw;
            let col: usize = k % dw;
            let sx = x as usize;
            let sy = y as usize;
            if col >= sx && col - sx < src.width as usize && row >= sy && row - sy
                < src.height as usize {
                proof {
                    lemma_cell_index(
                        row as int - sy as int,
                        col as int - sx as int,
                        src.width as int,
                        src.height as int,
                    );
                }
                let si: usize = (row - sy) * (src.width as usize) + (col - sx);
                let p = src.pixels[si];
                self.pixels[k] = p;
            }
            k = k + 1;
        }
        assert(self.pixels@ =~= target);
    }
}

} // verus!
