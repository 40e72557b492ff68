//! Plain row-major image buffers: 8-bit grey, RGB and RGBA.

use vstd::prelude::*;

verus! {

/// Linear index of pixel `(x, y)` in a row-major frame `width` pixels wide.
pub open spec fn pixel_index(x: int, y: int, width: int) -> int {
    y * width + x
}

/// Pixel `(x, y)` of a `width`-wide frame lies at a valid index, and distinct
/// in-frame pixels at distinct indices.
pub proof fn lemma_pixel_index_bounds(x: int, y: int, width: int, height: int)
    requires
        0 <= x < width,
        0 <= y < height,
    ensures
        0 <= pixel_index(x, y, width) < width * height,
        pixel_index(x, y, width) / width == y,
        pixel_index(x, y, width) % width == x,
{
    assert(0 <= y * width + x < width * height) by (nonlinear_arith)
        requires
            0 <= x < width,
            0 <= y < height,
    ;
    vstd::arithmetic::div_mod::lemma_fundamental_div_mod_converse(y * width + x, width, y, x);
}

/// Abstract content of a grey image: its size and its samples, row by row.
pub struct GrayView {
    pub width: nat,
    pub height: nat,
    pub pixels: Seq<u8>,
}

/// An 8-bit single-channel image stored row by row.
pub struct GrayImage {
    width: u32,
    height: u32,
    data: Vec<u8>,
}

impl View for GrayImage {
    type V = GrayView;

    closed spec fn view(&self) -> GrayView {
        GrayView {
            width: self.width as nat,
            height: self.height as nat,
            pixels: Seq::new((self.width * self.height) as nat, |i: int| self.data@[i]),
        }
    }
}

impl GrayImage {
    /// The stored samples match the size; every constructor establishes this
    /// and every method keeps it.
    pub closed spec fn wf(&self) -> bool {
        &&& self.data@.len() == self.width * self.height
        &&& self.width * self.height <= usize::MAX
    }

    /// A well-formed image holds one entry per pixel, and its pixel count
    /// fits in memory.
    pub proof fn lemma_wf(img: &GrayImage)
        requires
            img.wf(),
        ensures
            img@.pixels.len() == img@.width * img@.height,
            img@.width * img@.height <= usize::MAX,
            img@.width <= u32::MAX,
            img@.height <= u32::MAX,
    {
    }

    /// An all-zero image.
    pub fn new(width: u32, height: u32) -> (img: GrayImage)
        requires
            width * height <= usize::MAX,
        ensures
            img.wf(),
            img@.width == width,
            img@.height == height,
            img@.pixels == Seq::new((width * height) as nat, |i: int| 0u8),
    {
        let n: usize = (width as usize) * (height as usize);
        let mut data: Vec<u8> = Vec::new();
        let mut i: usize = 0;
        while i < n
            invariant
                0 <= i <= n,
                data@.len() == i,
                forall|k: int| 0 <= k < i ==> #[trigger] data@[k] == 0u8,
            decreases n - i,
        {
            data.push(0u8);
            i = i + 1;
        }
        assert(data@ =~= Seq::new((width * height) as nat, |i: int| 0u8));
        GrayImage { width, height, data }
    }

    /// Wrap `buf` as a `width`×`height` image. `None` when `buf` is shorter
    /// than the image or the size does not fit in memory; samples past the
    /// image are dropped.
    pub fn from_raw(width: u32, height: u32, buf: Vec<u8>) -> (res: Option<GrayImage>)
        ensures
            res is Some <==> (width * height <= usize::MAX && width * height <= buf@.len()),
            res matches Some(img) ==> img.wf() && img@.width == width && img@.height == height
                && img@.pixels == buf@.subrange(0, width * height),
    {
        let w: usize = width as usize;
        let h: usize = height as usize;
        if h != 0 && w > usize::MAX / h {
            assert(width * height > usize::MAX) by (nonlinear_arith)
                requires
                    h > 0,
                    w > usize::MAX / h,
                    w == width,
                    h == height,
            ;
            return None;
        }
        assert(w * h <= usize::MAX) by (nonlinear_arith)
            requires
                h == 0 || w <= usize::MAX / h,
        ;
        let n: usize = w * h;
        if buf.len() < n {
            return None;
        }
        let mut data: Vec<u8> = Vec::new();
        let mut i: usize = 0;
        while i < n
            invariant
                0 <= i <= n,
                n <= buf@.len(),
                data@.len() == i,
                forall|k: int| 0 <= k < i ==> #[trigger] data@[k] == buf@[k],
            decreases n - i,
        {
            data.push(buf[i]);
            i = i + 1;
        }
        assert(data@ =~= buf@.subrange(0, n as int));
        Some(GrayImage { width, height, data })
    }

    pub fn width(&self) -> (w: u32)
        ensures
            w == self@.width,
    {
        self.width
    }

    pub fn height(&self) -> (h: u32)
        ensures
            h == self@.height,
    {
        self.height
    }

    /// The samples, row by row.
    pub fn as_raw(&self) -> (s: &[u8])
        requires
            self.wf(),
        ensures
            s@ == self@.pixels,
    {
        self.data.as_slice()
    }

    /// Sample at column `x`, row `y`.
    pub fn get_pixel(&self, x: u32, y: u32) -> (v: u8)
        requires
            self.wf(),
            x < self@.width,
            y < self@.height,
        ensures
            v == self@.pixels[pixel_index(x as int, y as int, self@.width as int)],
    {
        proof {
            lemma_pixel_index_bounds(x as int, y as int, self.width as int, self.height as int);
        }
        self.data[(y as usize) * (self.width as usize) + (x as usize)]
    }

    /// Set the sample at column `x`, row `y`.
    pub fn put_pixel(&mut self, x: u32, y: u32, v: u8)
        requires
            old(self).wf(),
            x < old(self)@.width,
            y < old(self)@.height,
        ensures
            final(self).wf(),
            final(self)@.width == old(self)@.width,
            final(self)@.height == old(self)@.height,
            final(self)@.pixels == old(self)@.pixels.update(
                pixel_index(x as int, y as int, old(self)@.width as int),
                v,
            ),
    {
        proof {
            lemma_pixel_index_bounds(x as int, y as int, self.width as int, self.height as int);
        }
        let i: usize = (y as usize) * (self.width as usize) + (x as usize);
        self.data.set(i, v);
    }
}

/// Abstract content of a multi-channel image: its size and its pixels, row by row.
pub struct ColorView<const N: usize> {
    pub width: nat,
    pub height: nat,
    pub pixels: Seq<[u8; N]>,
}

/// The channel samples of `pixels`, pixel after pixel.
pub open spec fn flatten_pixels<const N: usize>(pixels: Seq<[u8; N]>) -> Seq<u8> {
    Seq::new(pixels.len() * N as nat, |j: int| pixels[j / N as int]@[j % N as int])
}

/// An 8-bit RGBA image stored row by row.
pub struct RgbaImage {
    width: u32,
    height: u32,
    data: Vec<[u8; 4]>,
}

impl View for RgbaImage {
    type V = ColorView<4>;

    closed spec fn view(&self) -> ColorView<4> {
        ColorView {
            width: self.width as nat,
            height: self.height as nat,
            pixels: Seq::new((self.width * self.height) as nat, |i: int| self.data@[i]),
        }
    }
}

impl RgbaImage {
    /// The stored samples match the size; every constructor establishes this
    /// and every method keeps it.
    pub closed spec fn wf(&self) -> bool {
        &&& self.data@.len() == self.width * self.height
        &&& self.width * self.height <= usize::MAX
    }

    /// A well-formed image holds one entry per pixel, and its pixel count
    /// fits in memory.
    pub proof fn lemma_wf(img: &RgbaImage)
        requires
            img.wf(),
        ensures
            img@.pixels.len() == img@.width * img@.height,
            img@.width * img@.height <= usize::MAX,
            img@.width <= u32::MAX,
            img@.height <= u32::MAX,
    {
    }

    /// An image with every pixel set to `color`.
    pub fn filled(width: u32, height: u32, color: [u8; 4]) -> (img: RgbaImage)
        requires
            width * height <= usize::MAX,
        ensures
            img.wf(),
            img@.width == width,
            img@.height == height,
            img@.pixels == Seq::new((width * height) as nat, |i: int| color),
    {
        let n: usize = (width as usize) * (height as usize);
        let mut data: Vec<[u8; 4]> = Vec::new();
        let mut i: usize = 0;
        while i < n
            invariant
                0 <= i <= n,
                data@.len() == i,
                forall|k: int| 0 <= k < i ==> #[trigger] data@[k] == color,
            decreases n - i,
        {
            data.push(color);
            i = i + 1;
        }
        assert(data@ =~= Seq::new((width * height) as nat, |i: int| color));
        RgbaImage { width, height, data }
    }

    pub fn width(&self) -> (w: u32)
        ensures
            w == self@.width,
    {
        self.width
    }

    pub fn height(&self) -> (h: u32)
        ensures
            h == self@.height,
    {
        self.height
    }

    /// Pixel at column `x`, row `y`.
    pub fn get_pixel(&self, x: u32, y: u32) -> (v: [u8; 4])
        requires
            self.wf(),
            x < self@.width,
            y < self@.height,
        ensures
            v == self@.pixels[pixel_index(x as int, y as int, self@.width as int)],
    {
        proof {
            lemma_pixel_index_bounds(x as int, y as int, self.width as int, self.height as int);
        }
        self.data[(y as usize) * (self.width as usize) + (x as usize)]
    }

    /// Set the pixel at column `x`, row `y`.
    pub fn put_pixel(&mut self, x: u32, y: u32, v: [u8; 4])
        requires
            old(self).wf(),
            x < old(self)@.width,
            y < old(self)@.height,
        ensures
            final(self).wf(),
            final(self)@.width == old(self)@.width,
            final(self)@.height == old(self)@.height,
            final(self)@.pixels == old(self)@.pixels.update(
                pixel_index(x as int, y as int, old(self)@.width as int),
                v,
            ),
    {
        proof {
            lemma_pixel_index_bounds(x as int, y as int, self.width as int, self.height as int);
        }
        let i: usize = (y as usize) * (self.width as usize) + (x as usize);
        self.data.set(i, v);
    }

    /// The channel samples of every pixel, row by row.
    pub fn to_raw(&self) -> (raw: Vec<u8>)
        requires
            self.wf(),
            self@.width * self@.height * 4 <= usize::MAX,
        ensures
            raw@ == flatten_pixels(self@.pixels),
    {
        let n: usize = self.data.len();
        let mut raw: Vec<u8> = Vec::new();
        let mut i: usize = 0;
        while i < n
            invariant
                n == self.data@.len(),
                n * 4 <= usize::MAX,
                n == self@.pixels.len(),
                self@.pixels =~= self.data@,
                0 <= i <= n,
                raw@.len() == i * 4,
                forall|j: int| 0 <= j < raw@.len() ==> #[trigger] raw@[j] == self@.pixels[j / 4]@[j % 4],
            decreases n - i,
        {
            let px: [u8; 4] = self.data[i];
            let mut k: usize = 0;
            while k < 4
                invariant
                    0 <= k <= 4,
                    0 <= i < n,
                    n * 4 <= usize::MAX,
                    n == self@.pixels.len(),
                    self@.pixels =~= self.data@,
                    px == self.data@[i as int],
                    raw@.len() == i * 4 + k,
                    forall|j: int| 0 <= j < raw@.len() ==> #[trigger] raw@[j] == self@.pixels[j / 4]@[j % 4],
                decreases 4 - k,
            {
                raw.push(px[k]);
                k = k + 1;
            }
            i = i + 1;
        }
        raw
    }
}

/// An 8-bit RGB image stored row by row.
pub struct RgbImage {
    width: u32,
    height: u32,
    data: Vec<[u8; 3]>,
}

impl View for RgbImage {
    type V = ColorView<3>;

    closed spec fn view(&self) -> ColorView<3> {
        ColorView {
            width: self.width as nat,
            height: self.height as nat,
            pixels: Seq::new((self.width * self.height) as nat, |i: int| self.data@[i]),
        }
    }
}

impl RgbImage {
    /// The stored samples match the size; every constructor establishes this
    /// and every method keeps it.
    pub closed spec fn wf(&self) -> bool {
        &&& self.data@.len() == self.width * self.height
        &&& self.width * self.height <= usize::MAX
    }

    /// A well-formed image holds one entry per pixel, and its pixel count
    /// fits in memory.
    pub proof fn lemma_wf(img: &RgbImage)
        requires
            img.wf(),
        ensures
            img@.pixels.len() == img@.width * img@.height,
            img@.width * img@.height <= usize::MAX,
            img@.width <= u32::MAX,
            img@.height <= u32::MAX,
    {
    }

    /// An all-black image.
    pub fn new(width: u32, height: u32) -> (img: RgbImage)
        requires
            width * height <= usize::MAX,
        ensures
            img.wf(),
            img@.width == width,
            img@.height == height,
            img@.pixels == Seq::new((width * height) as nat, |i: int| [0u8, 0u8, 0u8]),
    {
        RgbImage::filled(width, height, [0u8, 0u8, 0u8])
    }

    /// An image with every pixel set to `color`.
    pub fn filled(width: u32, height: u32, color: [u8; 3]) -> (img: RgbImage)
        requires
            width * height <= usize::MAX,
        ensures
            img.wf(),
            img@.width == width,
            img@.height == height,
            img@.pixels == Seq::new((width * height) as nat, |i: int| color),
    {
        let n: usize = (width as usize) * (height as usize);
        let mut data: Vec<[u8; 3]> = Vec::new();
        let mut i: usize = 0;
        while i < n
            invariant
                0 <= i <= n,
                data@.len() == i,
                forall|k: int| 0 <= k < i ==> #[trigger] data@[k] == color,
            decreases n - i,
        {
            data.push(color);
            i = i + 1;
        }
        assert(data@ =~= Seq::new((width * height) as nat, |i: int| color));
        RgbImage { width, height, data }
    }

    pub fn width(&self) -> (w: u32)
        ensures
            w == self@.width,
    {
        self.width
    }

    pub fn height(&self) -> (h: u32)
        ensures
            h == self@.height,
    {
        self.height
    }

    /// Pixel at column `x`, row `y`.
    pub fn get_pixel(&self, x: u32, y: u32) -> (v: [u8; 3])
        requires
            self.wf(),
            x < self@.width,
            y < self@.height,
        ensures
            v == self@.pixels[pixel_index(x as int, y as int, self@.width as int)],
    {
        proof {
            lemma_pixel_index_bounds(x as int, y as int, self.width as int, self.height as int);
        }
        self.data[(y as usize) * (self.width as usize) + (x as usize)]
    }

    /// Set the pixel at column `x`, row `y`.
    pub fn put_pixel(&mut self, x: u32, y: u32, v: [u8; 3])
        requires
            old(self).wf(),
            x < old(self)@.width,
            y < old(self)@.height,
        ensures
            final(self).wf(),
            final(self)@.width == old(self)@.width,
            final(self)@.height == old(self)@.height,
            final(self)@.pixels == old(self)@.pixels.update(
                pixel_index(x as int, y as int, old(self)@.width as int),
                v,
            ),
    {
        proof {
            lemma_pixel_index_bounds(x as int, y as int, self.width as int, self.height as int);
        }
        let i: usize = (y as usize) * (self.width as usize) + (x as usize);
        self.data.set(i, v);
    }

    /// The channel samples of every pixel, row by row.
    pub fn to_raw(&self) -> (raw: Vec<u8>)
        requires
            self.wf(),
            self@.width * self@.height * 3 <= usize::MAX,
        ensures
            raw@ == flatten_pixels(self@.pixels),
    {
        let n: usize = self.data.len();
        let mut raw: Vec<u8> = Vec::new();
        let mut i: usize = 0;
        while i < n
            invariant
                n == self.data@.len(),
                n * 3 <= usize::MAX,
                n == self@.pixels.len(),
                self@.pixels =~= self.data@,
                0 <= i <= n,
                raw@.len() == i * 3,
                forall|j: int| 0 <= j < raw@.len() ==> #[trigger] raw@[j] == self@.pixels[j / 3]@[j % 3],
            decreases n - i,
        {
            let px: [u8; 3] = self.data[i];
            let mut k: usize = 0;
            while k < 3
                invariant
                    0 <= k <= 3,
                    0 <= i < n,
                    n * 3 <= usize::MAX,
                    n == self@.pixels.len(),
                    self@.pixels =~= self.data@,
                    px == self.data@[i as int],
                    raw@.len() == i * 3 + k,
                    forall|j: int| 0 <= j < raw@.len() ==> #[trigger] raw@[j] == self@.pixels[j / 3]@[j % 3],
                decreases 3 - k,
            {
                raw.push(px[k]);
                k = k + 1;
            }
            i = i + 1;
        }
        raw
    }
}

} // verus!
