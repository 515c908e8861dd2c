//! A simple RGB24 framebuffer: `width * height` pixels of three bytes each,
//! row-major.

use vstd::prelude::*;

verus! {

#[derive(Debug, Clone)]
pub struct Screen {
    width: u32,
    height: u32,
    // RGB24 buffer, row-major: width * height * 3 bytes
    pixels: Vec<u8>,
}

pub struct ScreenView {
    pub width: u32,
    pub height: u32,
    pub pixels: Seq<u8>,
}

impl View for Screen {
    type V = ScreenView;

    closed spec fn view(&self) -> ScreenView {
        ScreenView { width: self.width, height: self.height, pixels: self.pixels@ }
    }
}

/// Byte length of a `w` by `h` RGB24 buffer.
pub open spec fn rgb24_len(w: int, h: int) -> int {
    w * h * 3
}

/// Offset of the first byte of pixel `(x, y)`.
pub open spec fn pixel_offset(width: u32, x: int, y: int) -> int {
    (y * width + x) * 3
}

/// A framebuffer whose buffer holds exactly `width * height` pixels.
pub open spec fn screen_wf(s: ScreenView) -> bool {
    &&& s.pixels.len() == rgb24_len(s.width as int, s.height as int)
    &&& allocatable(s.width, s.height)
}

/// The pixel at `(x, y)`, or `None` outside the screen.
pub open spec fn pixel_of(s: ScreenView, x: int, y: int) -> Option<(u8, u8, u8)> {
    if 0 <= x < s.width && 0 <= y < s.height {
        let i = pixel_offset(s.width, x, y);
        Some((s.pixels[i], s.pixels[i + 1], s.pixels[i + 2]))
    } else {
        None
    }
}

/// The screen with pixel `(x, y)` set to `(r, g, b)`, when it lies on the screen.
pub open spec fn with_pixel(s: ScreenView, x: int, y: int, r: u8, g: u8, b: u8) -> ScreenView {
    if 0 <= x < s.width && 0 <= y < s.height {
        let i = pixel_offset(s.width, x, y);
        ScreenView { pixels: s.pixels.update(i, r).update(i + 1, g).update(i + 2, b), ..s }
    } else {
        s
    }
}

/// The byte at offset `i` of a buffer filled with `(r, g, b)`.
pub open spec fn fill_byte(i: int, r: u8, g: u8, b: u8) -> u8 {
    if i % 3 == 0 {
        r
    } else if i % 3 == 1 {
        g
    } else {
        b
    }
}

/// A buffer size that a `Vec<u8>` can have.
pub open spec fn allocatable(w: u32, h: u32) -> bool {
    rgb24_len(w as int, h as int) <= isize::MAX
}

pub proof fn lemma_pixel_in_bounds(width: u32, height: u32, x: int, y: int)
    requires
        0 <= x < width,
        0 <= y < height,
    ensures
        0 <= y * width <= y * width + x,
        0 <= pixel_offset(width, x, y),
        pixel_offset(width, x, y) + 3 <= rgb24_len(width as int, height as int),
{
    assert(0 <= y * width) by (nonlinear_arith)
        requires
            0 <= y,
            0 <= width,
    ;
    assert(0 <= y * width + x < height * width) by (nonlinear_arith)
        requires
            0 <= x < width,
            0 <= y < height,
    ;
    assert(width * height == height * width) by (nonlinear_arith);
}

pub proof fn lemma_pixels_apart(width: u32, x: int, y: int, x2: int, y2: int)
    requires
        0 <= x < width,
        0 <= x2 < width,
        0 <= y,
        0 <= y2,
        x != x2 || y != y2,
    ensures
        pixel_offset(width, x, y) + 3 <= pixel_offset(width, x2, y2) || pixel_offset(width, x2, y2)
            + 3 <= pixel_offset(width, x, y),
{
    assert(y * width + x != y2 * width + x2) by (nonlinear_arith)
        requires
            0 <= x < width,
            0 <= x2 < width,
            x != x2 || y != y2,
    {
        if y < y2 {
            assert(y * width + width <= y2 * width) by (nonlinear_arith)
                requires y < y2, width >= 0;
        } else if y2 < y {
            assert(y2 * width + width <= y * width) by (nonlinear_arith)
                requires y2 < y, width >= 0;
        }
    }
}

fn sat_mul(a: usize, b: usize) -> (r: usize)
    ensures
        r == if a * b <= usize::MAX {
            (a * b) as usize
        } else {
            usize::MAX
        },
{
    match a.checked_mul(b) {
        Some(v) => v,
        None => usize::MAX,
    }
}

fn buffer_len(w: u32, h: u32) -> (n: usize)
    requires
        allocatable(w, h),
    ensures
        n == rgb24_len(w as int, h as int),
{
    assert(0 <= w * h <= w * h * 3) by (nonlinear_arith);
    sat_mul(sat_mul(w as usize, h as usize), 3)
}


/// Pixel `(x, y)` after copying a `w` by `h` RGB24 image to the top-left
/// corner: the image's pixel where the image and the screen overlap, the
/// screen's own pixel elsewhere.
pub open spec fn copied_pixel(s: ScreenView, buf: Seq<u8>, w: u32, h: u32, x: int, y: int) -> Option<
    (u8, u8, u8),
> {
    if 0 <= x < w && 0 <= y < h && x < s.width && y < s.height {
        let i = pixel_offset(w, x, y);
        Some((buf[i], buf[i + 1], buf[i + 2]))
    } else {
        pixel_of(s, x, y)
    }
}

/// Pixel `(x, y)` partway through a copy that has done every row above `row`
/// and the first `col` pixels of row `row`.
pub open spec fn copy_progress(
    s: ScreenView,
    buf: Seq<u8>,
    w: u32,
    h: u32,
    row: int,
    col: int,
    x: int,
    y: int,
) -> Option<(u8, u8, u8)> {
    if y < row || (y == row && x < col) {
        copied_pixel(s, buf, w, h, x, y)
    } else {
        pixel_of(s, x, y)
    }
}

impl Screen {
    /// A black `width` by `height` screen.
    pub fn new(width: u32, height: u32) -> (s: Self)
        requires
            allocatable(width, height),
        ensures
            s@.width == width,
            s@.height == height,
            s@.pixels == Seq::new(rgb24_len(width as int, height as int) as nat, |i: int| 0u8),
            screen_wf(s@),
    {
        let size = buffer_len(width, height);
        let pixels = vec![0u8; size];
        let s = Screen { width, height, pixels };
        assert(s@.pixels =~= Seq::new(size as nat, |i: int| 0u8));
        s
    }

    pub fn width(&self) -> (w: u32)
        ensures
            w == self@.width,
    {
        self.width
    }

    pub fn height(&self) -> (h: u32)
        ensures
            h == self@.height,
    {
        self.height
    }

    /// Change the dimensions; the buffer is cut or extended with black bytes.
    pub fn resize(&mut self, w: u32, h: u32)
        requires
            allocatable(w, h),
        ensures
            final(self)@.width == w,
            final(self)@.height == h,
            screen_wf(final(self)@),
            ({
                let n = rgb24_len(w as int, h as int);
                let old_px = old(self)@.pixels;
                final(self)@.pixels == if n <= old_px.len() {
                    old_px.take(n)
                } else {
                    old_px + Seq::new((n - old_px.len()) as nat, |i: int| 0u8)
                }
            }),
    {
        self.width = w;
        self.height = h;
        let size = buffer_len(w, h);
        let ghost old_px = self.pixels@;
        self.pixels.resize(size, 0);
        proof {
            if size > old_px.len() {
                let ext = old_px + Seq::new((size - old_px.len()) as nat, |i: int| 0u8);
                assert forall|i: int| 0 <= i < size implies self.pixels@[i] == ext[i] by {
                    if i >= old_px.len() {
                        assert(cloned::<u8>(0u8, self.pixels@[i]));
                    } else {
                        assert(self.pixels@.subrange(0, old_px.len() as int)[i] == old_px[i]);
                    }
                }
                assert(self.pixels@ =~= ext);
            }
        }
    }

    /// Fill the entire screen with an RGB color tuple.
    pub fn fill(&mut self, r: u8, g: u8, b: u8)
        requires
            screen_wf(old(self)@),
        ensures
            final(self)@.width == old(self)@.width,
            final(self)@.height == old(self)@.height,
            final(self)@.pixels == Seq::new(
                old(self)@.pixels.len(),
                |i: int| fill_byte(i, r, g, b),
            ),
    {
        let n = self.pixels.len();
        assert(n % 3 == 0) by (nonlinear_arith)
            requires
                n == self.width * self.height * 3,
        ;
        let mut idx: usize = 0;
        while idx + 2 < n
            invariant
                n == self.pixels@.len(),
                n == old(self)@.pixels.len(),
                n % 3 == 0,
                n <= isize::MAX,
                idx % 3 == 0,
                idx <= n,
                self.width == old(self)@.width,
                self.height == old(self)@.height,
                forall|j: int| 0 <= j < idx ==> self.pixels@[j] == fill_byte(j, r, g, b),
            decreases n - idx,
        {
            self.pixels.set(idx, r);
            self.pixels.set(idx + 1, g);
            self.pixels.set(idx + 2, b);
            idx = idx + 3;
        }
        assert(self.pixels@ =~= Seq::new(n as nat, |i: int| fill_byte(i, r, g, b)));
    }

    /// The pixel at `(x, y)`, or `None` outside the screen.
    pub fn get_pixel(&self, x: u32, y: u32) -> (p: Option<(u8, u8, u8)>)
        requires
            screen_wf(self@),
        ensures
            p == pixel_of(self@, x as int, y as int),
    {
        if x >= self.width || y >= self.height {
            return None;
        }
        proof {
            lemma_pixel_in_bounds(self.width, self.height, x as int, y as int);
        }
        let idx = ((y as usize) * (self.width as usize) + (x as usize)) * 3;
        Some((self.pixels[idx], self.pixels[idx + 1], self.pixels[idx + 2]))
    }

    /// Set the pixel at `(x, y)`; false, and nothing changed, outside the screen.
    pub fn set_pixel(&mut self, x: u32, y: u32, r: u8, g: u8, b: u8) -> (ok: bool)
        requires
            screen_wf(old(self)@),
        ensures
            ok == (x < old(self)@.width && y < old(self)@.height),
            final(self)@ == with_pixel(old(self)@, x as int, y as int, r, g, b),
            screen_wf(final(self)@),
    {
        if x >= self.width || y >= self.height {
            return false;
        }
        proof {
            lemma_pixel_in_bounds(self.width, self.height, x as int, y as int);
        }
        let idx = ((y as usize) * (self.width as usize) + (x as usize)) * 3;
        self.pixels.set(idx, r);
        self.pixels.set(idx + 1, g);
        self.pixels.set(idx + 2, b);
        true
    }

    /// Copy a `w` by `h` RGB24 image (row-major, three bytes per pixel) to
    /// the top-left corner of the screen; the part of the image that falls
    /// outside the screen is dropped.
    pub fn copy_rgb24(&mut self, buf: &[u8], w: u32, h: u32)
        requires
            screen_wf(old(self)@),
            rgb24_len(w as int, h as int) <= buf@.len(),
        ensures
            screen_wf(final(self)@),
            final(self)@.width == old(self)@.width,
            final(self)@.height == old(self)@.height,
            forall|x: int, y: int|
                #![trigger pixel_of(final(self)@, x, y)]
                pixel_of(final(self)@, x, y) == copied_pixel(old(self)@, buf@, w, h, x, y),
            forall|x: int, y: int|
                #![trigger pixel_of(final(self)@, x, y)]
                0 <= x < w && 0 <= y < h && x < old(self)@.width && y < old(self)@.height
                    ==> pixel_of(final(self)@, x, y) == Some(
                    (buf@[(y * w + x) * 3], buf@[(y * w + x) * 3 + 1], buf@[(y * w + x) * 3 + 2]),
                ),
    {
        let ghost s0 = self@;
        let blen = buf.len();
        let mut y: u32 = 0;
        while y < h
            invariant
                y <= h,
                screen_wf(s0),
                screen_wf(self@),
                self@.width == s0.width,
                self@.height == s0.height,
                rgb24_len(w as int, h as int) <= buf@.len(),
                blen == buf@.len(),
                forall|px: int, py: int|
                    #![trigger pixel_of(self@, px, py)]
                    pixel_of(self@, px, py) == copy_progress(s0, buf@, w, h, y as int, 0, px, py),
            decreases h - y,
        {
            let mut x: u32 = 0;
            while x < w
                invariant
                    x <= w,
                    y < h,
                    screen_wf(s0),
                    screen_wf(self@),
                    self@.width == s0.width,
                    self@.height == s0.height,
                    rgb24_len(w as int, h as int) <= buf@.len(),
                    blen == buf@.len(),
                    forall|px: int, py: int|
                        #![trigger pixel_of(self@, px, py)]
                        pixel_of(self@, px, py) == copy_progress(
                            s0,
                            buf@,
                            w,
                            h,
                            y as int,
                            x as int,
                            px,
                            py,
                        ),
                decreases w - x,
            {
                proof {
                    lemma_pixel_in_bounds(w, h, x as int, y as int);
                }
                let idx = ((y as usize) * (w as usize) + (x as usize)) * 3;
                let ghost before = self@;
                let on_screen = self.set_pixel(x, y, buf[idx], buf[idx + 1], buf[idx + 2]);
                proof {
                    assert forall|px: int, py: int|
                        #![trigger pixel_of(self@, px, py)]
                        pixel_of(self@, px, py) == copy_progress(
                            s0,
                            buf@,
                            w,
                            h,
                            y as int,
                            x + 1,
                            px,
                            py,
                        ) by {
                        if on_screen {
                            law_set_then_get(
                                before,
                                x as int,
                                y as int,
                                buf@[idx as int],
                                buf@[idx + 1],
                                buf@[idx + 2],
                                px,
                                py,
                            );
                        }
                        assert(pixel_of(before, px, py) == copy_progress(
                            s0,
                            buf@,
                            w,
                            h,
                            y as int,
                            x as int,
                            px,
                            py,
                        ));
                    }
                }
                x = x + 1;
            }
            proof {
                assert forall|px: int, py: int|
                    #![trigger pixel_of(self@, px, py)]
                    pixel_of(self@, px, py) == copy_progress(s0, buf@, w, h, y + 1, 0, px, py) by {
                    assert(pixel_of(self@, px, py) == copy_progress(
                        s0,
                        buf@,
                        w,
                        h,
                        y as int,
                        w as int,
                        px,
                        py,
                    ));
                }
            }
            y = y + 1;
        }
        proof {
            assert forall|px: int, py: int|
                #![trigger pixel_of(self@, px, py)]
                pixel_of(self@, px, py) == copied_pixel(s0, buf@, w, h, px, py) by {
                assert(pixel_of(self@, px, py) == copy_progress(s0, buf@, w, h, h as int, 0, px, py));
            }
            assert forall|px: int, py: int|
                #![trigger pixel_of(self@, px, py)]
                0 <= px < w && 0 <= py < h && px < s0.width && py < s0.height ==> pixel_of(self@, px, py)
                    == Some(
                    (
                        buf@[(py * w + px) * 3],
                        buf@[(py * w + px) * 3 + 1],
                        buf@[(py * w + px) * 3 + 2],
                    ),
                ) by {
                law_copy_places_image(s0, buf@, w, h, px, py);
            }
        }
    }

    pub fn raw_pixels(&self) -> (p: &[u8])
        ensures
            p@ == self@.pixels,
    {
        self.pixels.as_slice()
    }

    /// Mutable access to the raw framebuffer bytes (RGB24).
    pub fn raw_pixels_mut(&mut self) -> (p: &mut [u8])
        ensures
            p@ == old(self)@.pixels,
            final(self)@.width == old(self)@.width,
            final(self)@.height == old(self)@.height,
            final(self)@.pixels == final(p)@,
    {
        self.pixels.as_mut_slice()
    }
}

/// Writing a pixel and reading it back gives what was written; every other
/// pixel reads as before.
pub proof fn law_set_then_get(s: ScreenView, x: int, y: int, r: u8, g: u8, b: u8, x2: int, y2: int)
    requires
        screen_wf(s),
        0 <= x < s.width,
        0 <= y < s.height,
    ensures
        pixel_of(with_pixel(s, x, y, r, g, b), x2, y2) == if x2 == x && y2 == y {
            Some((r, g, b))
        } else {
            pixel_of(s, x2, y2)
        },
        screen_wf(with_pixel(s, x, y, r, g, b)),
{
    lemma_pixel_in_bounds(s.width, s.height, x, y);
    if 0 <= x2 < s.width && 0 <= y2 < s.height && (x2 != x || y2 != y) {
        lemma_pixel_in_bounds(s.width, s.height, x2, y2);
        lemma_pixels_apart(s.width, x, y, x2, y2);
    }
}

/// After a fill, every pixel on the screen reads as the fill color.
pub proof fn law_fill_then_get(s: ScreenView, r: u8, g: u8, b: u8, x: int, y: int)
    requires
        screen_wf(s),
        0 <= x < s.width,
        0 <= y < s.height,
    ensures
        pixel_of(
            ScreenView { pixels: Seq::new(s.pixels.len(), |i: int| fill_byte(i, r, g, b)), ..s },
            x,
            y,
        ) == Some((r, g, b)),
{
    lemma_pixel_in_bounds(s.width, s.height, x, y);
    let i = pixel_offset(s.width, x, y);
    assert(i % 3 == 0) by (nonlinear_arith)
        requires
            i == (y * s.width + x) * 3,
    ;
}

/// Copying a `w` by `h` row-major RGB24 image puts image pixel `(x, y)` (the
/// three bytes from offset `(y * w + x) * 3`) at screen pixel `(x, y)`
/// wherever both the image and the screen have it, row 0 of the image on
/// row 0 of the screen, and leaves every other screen pixel as it was.
pub proof fn law_copy_places_image(s: ScreenView, buf: Seq<u8>, w: u32, h: u32, x: int, y: int)
    ensures
        0 <= x < w && 0 <= y < h && x < s.width && y < s.height ==> copied_pixel(s, buf, w, h, x, y)
            == Some((buf[(y * w + x) * 3], buf[(y * w + x) * 3 + 1], buf[(y * w + x) * 3 + 2])),
        !(0 <= x < w && 0 <= y < h && x < s.width && y < s.height) ==> copied_pixel(
            s,
            buf,
            w,
            h,
            x,
            y,
        ) == pixel_of(s, x, y),
{
}

/// The framebuffer is row-major RGB24: pixel `(x, y)` of the screen is the
/// three bytes from offset `(y * width + x) * 3`.
pub proof fn law_pixel_row_major(s: ScreenView, x: int, y: int)
    ensures
        0 <= x < s.width && 0 <= y < s.height ==> pixel_of(s, x, y) == Some(
            (
                s.pixels[(y * s.width + x) * 3],
                s.pixels[(y * s.width + x) * 3 + 1],
                s.pixels[(y * s.width + x) * 3 + 2],
            ),
        ),
        !(0 <= x < s.width && 0 <= y < s.height) ==> pixel_of(s, x, y) is None,
{
}

} // verus!
