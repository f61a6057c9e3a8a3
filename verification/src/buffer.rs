//! The frame buffer exchanged with the display server, and the pool of
//! shared memory backing it.
//!
//! A `Buffer` owns `stride * height` bytes, 4 bytes of little-endian
//! pre-multiplied ARGB per pixel, `stride >= 4 * width`. A `Pool` stands for
//! the shared-memory backing: it grows on demand, never shrinks below the
//! current need, and refuses to grow past what the system granted, which is
//! how an allocation failure reaches the caller.

use vstd::prelude::*;

verus! {

use crate::Error;
use crate::surface::Surface;
use crate::surface::lemma_cell_index;

/// Little-endian byte `b` (0 to 3) of the pixel `v`.
pub open spec fn pixel_byte(v: u32, b: int) -> u8
    recommends
        0 <= b < 4,
{
    ((v >> (8 * b) as u32) & 0xff) as u8
}

/// True when byte `k` of a buffer with the given row stride and pixel width
/// lies inside the rectangle of a `sw` by `sh` source placed at `(x, y)`.
pub open spec fn covers(stride: int, dwidth: int, sw: int, sh: int, x: int, y: int, k: int) -> bool {
    let row = k / stride;
    let col = (k % stride) / 4;
    &&& x <= col < x + sw
    &&& y <= row < y + sh
    &&& col < dwidth
}

/// The byte region `dest` with the pixels of `src` (a `sw` by `sh` region)
/// written at offset `(x, y)`, clipped to the buffer's `dwidth` columns and
/// however many whole rows of `stride` bytes `dest` holds: every covered
/// byte takes the matching little-endian source byte, every other byte
/// (clipped-out cells and row padding) keeps its value.
pub open spec fn blit_bytes(
    dest: Seq<u8>,
    stride: int,
    dwidth: int,
    src: Seq<u32>,
    sw: int,
    sh: int,
    x: int,
    y: int,
) -> Seq<u8>
    recommends
        src.len() == sw * sh,
        stride >= 4 * dwidth,
{
    Seq::new(
        dest.len(),
        |k: int|
            {
                let row = k / stride;
                let col = (k % stride) / 4;
                let b = (k % stride) % 4;
                if covers(stride, dwidth, sw, sh, x, y, k) {
                    pixel_byte(src[(row - y) * sw + (col - x)], b)
                } else {
                    dest[k]
                }
            },
    )
}

/// Compositing the same source at the same offset twice leaves exactly what
/// one composite leaves: the last write wins, nothing accumulates.
pub proof fn lemma_blit_bytes_idempotent(
    dest: Seq<u8>,
    stride: int,
    dwidth: int,
    src: Seq<u32>,
    sw: int,
    sh: int,
    x: int,
    y: int,
)
    ensures
        blit_bytes(blit_bytes(dest, stride, dwidth, src, sw, sh, x, y), stride, dwidth, src, sw, sh, x, y)
            == blit_bytes(dest, stride, dwidth, src, sw, sh, x, y),
{
    let once = blit_bytes(dest, stride, dwidth, src, sw, sh, x, y);
    let twice = blit_bytes(once, stride, dwidth, src, sw, sh, x, y);
    assert(twice =~= once);
}

/// A composite writes only the bytes its source rectangle covers: every
/// byte outside it, padding included, keeps its value, and the region's
/// length never changes.
pub proof fn lemma_blit_bytes_clips(
    dest: Seq<u8>,
    stride: int,
    dwidth: int,
    src: Seq<u32>,
    sw: int,
    sh: int,
    x: int,
    y: int,
)
    ensures
        blit_bytes(dest, stride, dwidth, src, sw, sh, x, y).len() == dest.len(),
        forall|k: int|
            0 <= k < dest.len() && !covers(stride, dwidth, sw, sh, x, y, k)
                ==> blit_bytes(dest, stride, dwidth, src, sw, sh, x, y)[k] == dest[k],
{
}

/// The shared-memory backing for buffers. `size` is what is currently
/// allocated, `limit` the most the system will grant; a request past the
/// limit fails and leaves the pool as it was.
pub struct Pool {
    pub size: usize,
    pub limit: usize,
}

impl Pool {
    /// A fresh pool with nothing allocated yet.
    pub fn new(limit: usize) -> (p: Pool)
        ensures
            p.size == 0,
            p.limit == limit,
    {
        Pool { size: 0, limit }
    }

    /// Grows the pool to hold a `width` by `height` frame of 4-byte pixels.
    /// The pool never shrinks below what it already holds; a request past
    /// the limit fails and leaves it unchanged, and the caller retries on a
    /// later redraw.
    pub fn resize(&mut self, width: u32, height: u32) -> (r: Result<(), Error>)
        ensures
            r is Ok <==> 4 * width as int * height as int <= old(self).limit,
            final(self).limit == old(self).limit,
            r is Ok ==> final(self).size == if 4 * width as int * height as int
                > old(self).size { 4 * width as int * height as int } else { old(self).size as int },
            r is Err ==> final(self).size == old(self).size,
            r is Err ==> r == Result::<(), Error>::Err(Error::Alloc),
    {
        assert(width as int * height as int <= u64::MAX) by (nonlinear_arith)
            requires
                width <= u32::MAX && height <= u32::MAX,
        ;
        let need_px = (width as u64) * (height as u64);
        assert((width as int * height as int) * 4 == 4 * width as int * height as int)
            by (nonlinear_arith);
        let need = match need_px.checked_mul(4) {
            Some(n) => n,
            Option::None => {
                return Err(Error::Alloc);
            },
        };
        if need > self.limit as u64 {
            return Err(Error::Alloc);
        }
        let need = need as usize;
        if need > self.size {
            self.size = need;
        }
        Ok(())
    }
}

/// A frame buffer: `stride * height` bytes backed by the pool, 4 bytes per
/// pixel, rows padded to `stride`.
pub struct Buffer {
    pub width: u32,
    pub height: u32,
    pub stride: usize,
    pub data: Vec<u8>,
}

impl Buffer {
    /// The byte store holds exactly `stride` bytes for each of the `height`
    /// rows, and each row holds at least `width` 4-byte pixels.
    pub open spec fn wf(&self) -> bool {
        &&& self.data@.len() == self.stride as int * self.height as int
        &&& self.stride as int * self.height as int <= usize::MAX
        &&& self.stride >= 4 * self.width as int
    }

    /// A zero-filled (fully transparent) buffer of the given geometry. Fails
    /// with `Error::Alloc`, leaving the pool untouched, exactly when the pool
    /// has not been grown to `stride * height` bytes.
    pub fn new(width: u32, height: u32, stride: usize, pool: &Pool) -> (r: Result<Buffer, Error>)
        requires
            stride >= 4 * width as int,
        ensures
            r is Ok <==> stride as int * height as int <= pool.size,
            r matches Ok(b) ==> b.wf() && b.width == width && b.height == height
                && b.stride == stride && b.data@ == Seq::new((stride as int * height as int) as nat, |k: int| 0u8),
            r matches Err(e) ==> e == Error::Alloc,
    {
        let need = match stride.checked_mul(height as usize) {
            Some(n) => n,
            Option::None => {
                return Err(Error::Alloc);
            },
        };
        if need > pool.size {
            return Err(Error::Alloc);
        }
        let mut data: Vec<u8> = Vec::new();
        let mut i: usize = 0;
        while i < need
            invariant
                i <= need,
                data@.len() == i,
                forall|j: int| 0 <= j < i ==> data@[j] == 0u8,
            decreases need - i,
        {
            data.push(0u8);
            i = i + 1;
        }
        let b = Buffer { width, height, stride, data };
        assert(b.data@ =~= Seq::new((stride as int * height as int) as nat, |k: int| 0u8));
        Ok(b)
    }

    /// Composites `src` into the buffer at pixel offset `(x, y)`, clipped to
    /// the buffer's bounds: source pixels that fall outside are silently
    /// dropped, and row padding is never touched.
    pub fn composite(&mut self, src: &Surface, x: u32, y: u32)
        requires
            old(self).wf(),
            src.wf(),
        ensures
            final(self).wf(),
            final(self).width == old(self).width,
            final(self).height == old(self).height,
            final(self).stride == old(self).stride,
            final(self).data@ == blit_bytes(
                old(self).data@,
                old(self).stride as int,
                old(self).width as int,
                src.pixels@,
                src.width as int,
                src.height as int,
                x as int,
                y as int,
            ),
    {
        let ghost target = blit_bytes(
            old(self).data@,
            old(self).stride as int,
            old(self).width as int,
            src.pixels@,
            src.width as int,
            src.height as int,
            x as int,
            y as int,
        );
        let stride: usize = self.stride;
        let n: usize = self.data.len();
        let mut k: usize = 0;
        while k < n
            invariant
                self.wf(),
                self.width == old(self).width,
                self.height == old(self).height,
                self.stride == old(self).stride,
                src.wf(),
                stride == self.stride,
                n == self.data@.len(),
                k <= n,
                target == blit_bytes(
                    old(self).data@,
                    old(self).stride as int,
                    old(self).width as int,
                    src.pixels@,
                    src.width as int,
                    src.height as int,
                    x as int,
                    y as int,
                ),
                target.len() == n,
                forall|j: int| 0 <= j < k ==> self.data@[j] == target[j],
                forall|j: int| k <= j < n ==> self.data@[j] == old(self).data@[j],
            decreases n - k,
        {
            let row: usize = k / stride;
            let off: usize = k % stride;
            let col: usize = off / 4;
            let b: usize = off % 4;
            let sx = x as usize;
            let sy = y as usize;
            if col >= sx && col - sx < src.width as usize && row >= sy && row - sy
                < src.height as usize && col < self.width as usize {
                proof {
                    lemma_cell_index(
                        row as int - sy as int,
                        col as int - sx as int,
                        src.width as int,
                        src.height as int,
                    );
                }
                let si: usize = (row - sy) * (src.width as usize) + (col - sx);
                let p = src.pixels[si];
                let byte = ((p >> ((8 * b) as u32)) & 0xff) as u8;
                self.data[k] = byte;
                assert(self.data@[k as int] == target[k as int]);
            } else {
                assert(self.data@[k as int] == target[k as int]);
            }
            k = k + 1;
        }
        assert(self.data@ =~= target);
    }

    /// Overwrites the whole byte region, padding included, with zero: the
    /// fully transparent frame used when the bar is hidden or torn down.
    pub fn clear(&mut self)
        requires
            old(self).wf(),
        ensures
            final(self).wf(),
            final(self).width == old(self).width,
            final(self).height == old(self).height,
            final(self).stride == old(self).stride,
            final(self).data@ == Seq::new(old(self).data@.len(), |k: int| 0u8),
    {
        let n: usize = self.data.len();
        let mut k: usize = 0;
        while k < n
            invariant
                n == self.data@.len(),
                k <= n,
                self.width == old(self).width,
                self.height == old(self).height,
                self.stride == old(self).stride,
                self.wf(),
                forall|j: int| 0 <= j < k ==> self.data@[j] == 0u8,
                forall|j: int| k <= j < n ==> self.data@[j] == old(self).data@[j],
            decreases n - k,
        {
            self.data[k] = 0u8;
            k = k + 1;
        }
        assert(self.data@ =~= Seq::new(old(self).data@.len(), |k: int| 0u8));
    }

    /// The pixel at column `x`, row `y`, reassembled from its four bytes.
    pub fn get_pixel(&self, x: u32, y: u32) -> (p: u32)
        requires
            self.wf(),
            x < self.width,
            y < self.height,
        ensures
            p == crate::tags::u32_le(
                self.data@[y as int * self.stride as int + 4 * x as int],
                self.data@[y as int * self.stride as int + 4 * x as int + 1],
                self.data@[y as int * self.stride as int + 4 * x as int + 2],
                self.data@[y as int * self.stride as int + 4 * x as int + 3],
            ),
    {
        proof {
            lemma_cell_index(y as int, 4 * x as int + 3, self.stride as int, self.height as int);
        }
        let k: usize = (y as usize) * self.stride + 4 * (x as usize);
        let b0 = self.data[k];
        let b1 = self.data[k + 1];
        let b2 = self.data[k + 2];
        let b3 = self.data[k + 3];
        (b0 as u32) | ((b1 as u32) << 8) | ((b2 as u32) << 16) | ((b3 as u32) << 24)
    }
}

} // verus!
