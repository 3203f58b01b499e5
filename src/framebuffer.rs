use vstd::prelude::*;
use crate::gfx::{modulate, wrap_texel, Color, Texture, TEXTURE_BYTES, TEXTURE_TEXELS};

verus! {

/// Depth is carried as a key: the IEEE-754 bit pattern of a normalised depth
/// in `[0, 1]`. For non-negative floats the order of the bit patterns is the
/// order of the values, so keys compare as the depths do, and a negative depth
/// has its sign bit set and falls above `DEPTH_ONE`. Lower is nearer.
/// This is the key of depth 1.0, the far limit.
pub const DEPTH_ONE: u32 = 0x3F80_0000;

/// Key of depth 100000.0, the value a cleared depth buffer holds: greater
/// than every valid depth, so the first write to a pixel in a frame passes.
pub const DEPTH_CLEAR: u32 = 0x47C3_5000;

/// What a frame buffer holds: `pixels` has four bytes (r, g, b, a) per pixel
/// and `depth` one key per pixel, both row by row; `textures` are the texel
/// sequences of the loaded textures.
pub struct FrameView {
    pub width: int,
    pub height: int,
    pub pixels: Seq<u8>,
    pub depth: Seq<u32>,
    pub textures: Seq<Seq<Color>>,
}

/// One pixel write: position, depth key and colour.
#[derive(Clone, Copy, Debug, PartialEq, Eq, Structural)]
pub struct PixelWrite {
    pub x: isize,
    pub y: isize,
    pub depth: u32,
    pub color: Color,
}

pub open spec fn pixel_index(width: int, x: int, y: int) -> int {
    y * width + x
}

impl FrameView {
    pub open spec fn in_bounds(self, x: int, y: int) -> bool {
        0 <= x < self.width && 0 <= y < self.height
    }

    /// The colour stored for pixel number `i`.
    pub open spec fn color_at(self, i: int) -> Color {
        Color {
            r: self.pixels[4 * i],
            g: self.pixels[4 * i + 1],
            b: self.pixels[4 * i + 2],
            a: self.pixels[4 * i + 3],
        }
    }

    /// Whether a write at `(x, y)` with depth key `z` lands: the pixel is on
    /// screen, the depth is within `[0, 1]`, and it is strictly nearer than the
    /// depth stored there.
    pub open spec fn accepts(self, x: int, y: int, z: u32) -> bool {
        self.in_bounds(x, y) && z <= DEPTH_ONE && z < self.depth[pixel_index(self.width, x, y)]
    }

    /// The buffer after a write of colour `c` at `(x, y)` with depth key `z`:
    /// colour and depth of that one pixel replaced together if the write is
    /// accepted, nothing changed otherwise.
    pub open spec fn write(self, x: int, y: int, z: u32, c: Color) -> FrameView {
        if self.accepts(x, y, z) {
            let i = pixel_index(self.width, x, y);
            FrameView {
                pixels: self.pixels.update(4 * i, c.r).update(4 * i + 1, c.g).update(
                    4 * i + 2,
                    c.b,
                ).update(4 * i + 3, c.a),
                depth: self.depth.update(i, z),
                ..self
            }
        } else {
            self
        }
    }

    /// The buffer after the writes of `ws`, in order.
    pub open spec fn write_all(self, ws: Seq<PixelWrite>) -> FrameView
        decreases ws.len(),
    {
        if ws.len() == 0 {
            self
        } else {
            let w = ws.last();
            self.write_all(ws.drop_last()).write(w.x as int, w.y as int, w.depth, w.color)
        }
    }

    pub open spec fn wf(self) -> bool {
        &&& 0 <= self.width
        &&& 0 <= self.height
        &&& self.pixels.len() == 4 * (self.width * self.height)
        &&& self.depth.len() == self.width * self.height
        &&& 4 * (self.width * self.height) <= usize::MAX
        &&& self.width <= isize::MAX
        &&& self.height <= isize::MAX
        &&& forall|t: int|
            0 <= t < self.textures.len() ==> (#[trigger] self.textures[t]).len() == TEXTURE_TEXELS
    }
}

/// The colour of texel `i` of a packed RGBA byte stream.
pub open spec fn texel_of(bytes: Seq<u8>, i: int) -> Color {
    Color { r: bytes[4 * i], g: bytes[4 * i + 1], b: bytes[4 * i + 2], a: bytes[4 * i + 3] }
}

/// The textures packed in `bytes`, one every `TEXTURE_BYTES` bytes, in order.
pub open spec fn textures_of(bytes: Seq<u8>) -> Seq<Seq<Color>> {
    Seq::new(
        (bytes.len() as int / TEXTURE_BYTES as int) as nat,
        |t: int|
            Seq::new(TEXTURE_TEXELS as nat, |i: int| texel_of(bytes, t * TEXTURE_TEXELS + i)),
    )
}

/// Splits a packed RGBA byte stream into textures, in input order.
fn textures_from_bytes(bytes: &[u8]) -> (r: Vec<Texture>)
    requires
        bytes@.len() as int % TEXTURE_BYTES as int == 0,
    ensures
        r@.len() == textures_of(bytes@).len(),
        forall|t: int| 0 <= t < r@.len() ==> (#[trigger] r@[t]).wf() && r@[t]@ == textures_of(bytes@)[t],
{
    let len = bytes.len();
    let n = len / TEXTURE_BYTES;
    let mut textures: Vec<Texture> = Vec::new();
    let mut t: usize = 0;
    while t < n
        invariant
            n == bytes@.len() as int / TEXTURE_BYTES as int,
            t <= n,
            len == bytes@.len(),
            textures@.len() == t,
            forall|k: int|
                0 <= k < t ==> (#[trigger] textures@[k]).wf() && textures@[k]@ == textures_of(
                    bytes@,
                )[k],
        decreases n - t,
    {
        let mut acc: Vec<Color> = Vec::with_capacity(TEXTURE_TEXELS);
        assert(t * 65536 + 65536 <= len) by (nonlinear_arith)
            requires
                t < n,
                n == len / 65536,
        ;
        let base = t * TEXTURE_TEXELS;
        let mut i: usize = 0;
        while i < TEXTURE_TEXELS
            invariant
                n == bytes@.len() as int / TEXTURE_BYTES as int,
                t < n,
                base == t * TEXTURE_TEXELS,
                t * 65536 + 65536 <= len,
                len == bytes@.len(),
                i <= TEXTURE_TEXELS,
                acc@.len() == i,
                forall|k: int| 0 <= k < i ==> #[trigger] acc@[k] == texel_of(bytes@, base + k),
            decreases TEXTURE_TEXELS - i,
        {
            let p = 4 * (base + i);
            acc.push(Color::new(bytes[p], bytes[p + 1], bytes[p + 2], bytes[p + 3]));
            i += 1;
        }
        assert(acc@ =~= textures_of(bytes@)[t as int]);
        textures.push(Texture::new(acc));
        t += 1;
    }
    textures
}

/// The pixel and depth buffers of a frame, with the textures drawn from.
pub struct FrameBuffer {
    width: usize,
    height: usize,
    pixels: Vec<u8>,
    depth: Vec<u32>,
    textures: Vec<Texture>,
}

impl View for FrameBuffer {
    type V = FrameView;

    closed spec fn view(&self) -> FrameView {
        FrameView {
            width: self.width as int,
            height: self.height as int,
            pixels: self.pixels@,
            depth: self.depth@,
            textures: Seq::new(self.textures@.len(), |t: int| self.textures@[t]@),
        }
    }
}

proof fn lemma_pixel_in_range(w: int, h: int, x: int, y: int)
    requires
        0 <= x < w,
        0 <= y < h,
    ensures
        0 <= y * w + x < w * h,
        4 * (y * w + x) + 3 < 4 * (w * h),
{
    assert(0 <= y * w + x < w * h) by (nonlinear_arith)
        requires
            0 <= x < w,
            0 <= y < h,
    ;
}

/// Pixel numbers of distinct on-screen positions differ.
proof fn lemma_pixel_index_injective(w: int, x1: int, y1: int, x2: int, y2: int)
    requires
        0 <= x1 < w,
        0 <= x2 < w,
        0 <= y1,
        0 <= y2,
        pixel_index(w, x1, y1) == pixel_index(w, x2, y2),
    ensures
        x1 == x2 && y1 == y2,
{
    vstd::arithmetic::div_mod::lemma_fundamental_div_mod_converse(y1 * w + x1, w, y1, x1);
    vstd::arithmetic::div_mod::lemma_fundamental_div_mod_converse(y2 * w + x2, w, y2, x2);
}

fn filled<T: Copy>(value: T, n: usize) -> (v: Vec<T>)
    ensures
        v@ == Seq::new(n as nat, |i: int| value),
{
    let mut v: Vec<T> = Vec::with_capacity(n);
    let mut i: usize = 0;
    while i < n
        invariant
            i <= n,
            v@ == Seq::new(i as nat, |k: int| value),
        decreases n - i,
    {
        v.push(value);
        i += 1;
        assert(v@ =~= Seq::new(i as nat, |k: int| value));
    }
    v
}

fn fill<T: Copy>(v: &mut Vec<T>, value: T)
    ensures
        final(v)@ == Seq::new(old(v)@.len(), |i: int| value),
{
    let n = v.len();
    let mut i: usize = 0;
    while i < n
        invariant
            i <= n,
            n == v@.len(),
            forall|k: int| 0 <= k < i ==> v@[k] == value,
        decreases n - i,
    {
        v.set(i, value);
        i += 1;
    }
    assert(v@ =~= Seq::new(n as nat, |i: int| value));
}

impl FrameBuffer {
    /// A `width` x `height` frame, pixels zeroed and depth cleared, drawing
    /// from the textures packed in `texture_array`.
    pub fn new(width: usize, height: usize, texture_array: &[u8]) -> (f: Self)
        requires
            4 * (width * height) <= usize::MAX,
            width <= isize::MAX,
            height <= isize::MAX,
            texture_array@.len() as int % TEXTURE_BYTES as int == 0,
        ensures
            f@.wf(),
            f@.width == width,
            f@.height == height,
            f@.pixels == Seq::new((4 * (width * height)) as nat, |i: int| 0u8),
            f@.depth == Seq::new((width * height) as nat, |i: int| DEPTH_CLEAR),
            f@.textures == textures_of(texture_array@),
    {
        let textures = textures_from_bytes(texture_array);
        let f = FrameBuffer {
            pixels: filled(0u8, 4 * (width * height)),
            depth: filled(DEPTH_CLEAR, width * height),
            width,
            height,
            textures,
        };
        assert(f@.textures =~= textures_of(texture_array@));
        f
    }

    pub fn width(&self) -> (r: usize)
        ensures
            r == self@.width,
    {
        self.width
    }

    pub fn height(&self) -> (r: usize)
        ensures
            r == self@.height,
    {
        self.height
    }

    /// Number of textures loaded.
    pub fn texture_count(&self) -> (r: usize)
        ensures
            r == self@.textures.len(),
    {
        self.textures.len()
    }

    /// Starts a frame: every pixel white and opaque, every depth cleared.
    pub fn clear(&mut self)
        requires
            old(self)@.wf(),
        ensures
            final(self)@ == (FrameView {
                pixels: Seq::new(old(self)@.pixels.len(), |i: int| 255u8),
                depth: Seq::new(old(self)@.depth.len(), |i: int| DEPTH_CLEAR),
                ..old(self)@
            }),
            final(self)@.wf(),
    {
        fill(&mut self.pixels, 255u8);
        fill(&mut self.depth, DEPTH_CLEAR);
    }

    /// The colour buffer: four bytes (r, g, b, a) per pixel, row by row.
    pub fn get_pixels(&self) -> (r: &[u8])
        ensures
            r@ == self@.pixels,
    {
        self.pixels.as_slice()
    }

    /// The colour buffer, for a host that reads it in place.
    pub fn get_mut_pixels(&mut self) -> (r: &mut [u8])
        ensures
            r@ == old(self)@.pixels,
            final(self)@ == (FrameView { pixels: final(r)@, ..old(self)@ }),
    {
        self.pixels.as_mut_slice()
    }

    /// The depth key stored for pixel `(x, y)`.
    pub fn depth_at(&self, x: usize, y: usize) -> (r: u32)
        requires
            self@.wf(),
            x < self@.width,
            y < self@.height,
        ensures
            r == self@.depth[pixel_index(self@.width, x as int, y as int)],
    {
        proof {
            lemma_pixel_in_range(self.width as int, self.height as int, x as int, y as int);
        }
        self.depth[y * self.width + x]
    }

    /// Whether `(x, y)` is on screen and, when a depth key is given, whether
    /// that depth lies within `[0, 1]`.
    pub fn to_render(&self, x: isize, y: isize, z: Option<u32>) -> (r: bool)
        ensures
            r == (self@.in_bounds(x as int, y as int) && match z {
                Some(d) => d <= DEPTH_ONE,
                None => true,
            }),
    {
        if x < 0 || x as usize >= self.width {
            return false;
        }
        if y < 0 || y as usize >= self.height {
            return false;
        }
        match z {
            Some(d) => d <= DEPTH_ONE,
            None => true,
        }
    }

    /// Writes colour and depth of pixel `(x, y)` together, if the pixel is on
    /// screen, `z` is within `[0, 1]` and strictly nearer than the depth stored
    /// there; does nothing otherwise.
    pub fn write_pixel(&mut self, x: isize, y: isize, z: u32, color: Color)
        requires
            old(self)@.wf(),
        ensures
            final(self)@ == old(self)@.write(x as int, y as int, z, color),
            final(self)@.wf(),
    {
        if !self.to_render(x, y, Some(z)) {
            return;
        }
        proof {
            lemma_pixel_in_range(self.width as int, self.height as int, x as int, y as int);
        }
        let pixel_offset = y as usize * self.width + x as usize;
        if z >= self.depth[pixel_offset] {
            return;
        }
        let offset = 4 * pixel_offset;
        self.pixels.set(offset, color.r);
        self.pixels.set(offset + 1, color.g);
        self.pixels.set(offset + 2, color.b);
        self.pixels.set(offset + 3, color.a);
        self.depth.set(pixel_offset, z);
        assert(self@ =~= old(self)@.write(x as int, y as int, z, color));
    }

    /// Shades pixel `(x, y)` of a textured, lit surface at depth key `z`: texel
    /// `texel` of texture `texture_id` (wrapped into the texture) modulated by
    /// the interpolated light `light`, written only where the depth test passes.
    pub fn shade_pixel(
        &mut self,
        x: isize,
        y: isize,
        z: u32,
        texture_id: usize,
        texel: i64,
        light: Color,
    )
        requires
            old(self)@.wf(),
            texture_id < old(self)@.textures.len(),
        ensures
            final(self)@ == old(self)@.write(
                x as int,
                y as int,
                z,
                modulate(old(self)@.textures[texture_id as int][wrap_texel(texel as int)], light),
            ),
            final(self)@.wf(),
    {
        assert(self.textures@[texture_id as int]@ == self@.textures[texture_id as int]);
        let sampled = self.textures[texture_id].sample_texel(texel);
        let color = sampled.compose(light);
        self.write_pixel(x, y, z, color);
    }

    /// The clamped screen box `(min_x, min_y, max_x, max_y)` around three
    /// projected vertices: the vertices' bounding box cut to the screen. It is
    /// empty (a minimum above its maximum) when the triangle is wholly off one
    /// side.
    pub fn triangle_bounds(
        &self,
        p1x: isize,
        p1y: isize,
        p2x: isize,
        p2y: isize,
        p3x: isize,
        p3y: isize,
    ) -> (r: (isize, isize, isize, isize))
        requires
            self@.wf(),
        ensures
            r.0 == max(0, min3(p1x as int, p2x as int, p3x as int)),
            r.1 == max(0, min3(p1y as int, p2y as int, p3y as int)),
            r.2 == min(self@.width - 1, max3(p1x as int, p2x as int, p3x as int)),
            r.3 == min(self@.height - 1, max3(p1y as int, p2y as int, p3y as int)),
    {
        proof {
            lemma_dims_fit(self@);
        }
        let w = self.width as isize;
        let h = self.height as isize;
        let min_x = low(low(p1x, p2x), p3x);
        let min_y = low(low(p1y, p2y), p3y);
        let max_x = high(high(p1x, p2x), p3x);
        let max_y = high(high(p1y, p2y), p3y);
        (high(0, min_x), high(0, min_y), low(w - 1, max_x), low(h - 1, max_y))
    }

    /// Draws a `sidelen` x `sidelen` square of `color` centred on `(x, y)` at
    /// the far depth 1.0, if `(x, y)` is on screen with `z` within `[0, 1]`.
    /// The square's pixels are written column by column, each through the
    /// depth test; those off screen are skipped.
    pub fn write_square(&mut self, x: isize, y: isize, z: u32, sidelen: isize, color: Color)
        requires
            old(self)@.wf(),
        ensures
            final(self)@ == if old(self)@.in_bounds(x as int, y as int) && z <= DEPTH_ONE {
                old(self)@.write_all(square_writes(x as int, y as int, sidelen as int / 2, color))
            } else {
                old(self)@
            },
            final(self)@.wf(),
    {
        if !self.to_render(x, y, Some(z)) {
            return;
        }
        proof {
            lemma_dims_fit(self@);
        }
        let halfside: isize = sidelen / 2;
        let ghost h = halfside as int;
        let ghost ws = square_writes(x as int, y as int, h, color);
        let ghost start = self@;
        let mut indx: isize = -halfside;
        assert(indx + h == 0);
        assert((indx + h) * (2 * h) == 0) by (nonlinear_arith)
            requires
                indx + h == 0,
        ;
        assert(ws.take((indx + h) * (2 * h)) =~= Seq::<PixelWrite>::empty());
        while indx < halfside
            invariant
                self@.wf(),
                self@.width == start.width,
                self@.height == start.height,
                start.in_bounds(x as int, y as int),
                start.width <= isize::MAX / 2,
                start.height <= isize::MAX / 2,
                h == halfside,
                -isize::MAX / 2 <= halfside <= isize::MAX / 2,
                ws == square_writes(x as int, y as int, h, color),
                -h <= indx <= h || h <= 0,
                h <= 0 ==> indx == -h,
                self@ == start.write_all(ws.take((indx + h) * (2 * h))),
            decreases halfside - indx,
        {
            let mut indy: isize = -halfside;
            while indy < halfside
                invariant
                    self@.wf(),
                    self@.width == start.width,
                    self@.height == start.height,
                    start.in_bounds(x as int, y as int),
                    start.width <= isize::MAX / 2,
                    start.height <= isize::MAX / 2,
                    h == halfside,
                    -isize::MAX / 2 <= halfside <= isize::MAX / 2,
                    ws == square_writes(x as int, y as int, h, color),
                    -h <= indx < h,
                    -h <= indy <= h,
                    self@ == start.write_all(ws.take((indx + h) * (2 * h) + (indy + h))),
                decreases halfside - indy,
            {
                let ghost k = (indx + h) * (2 * h) + (indy + h);
                proof {
                    lemma_square_step(x as int, y as int, h, color, indx as int, indy as int);
                }
                let px = x + indx;
                let py = y + indy;
                if self.to_render(px, py, None) {
                    self.write_pixel(px, py, DEPTH_ONE, color);
                }
                proof {
                    assert(ws.take(k + 1).drop_last() =~= ws.take(k));
                    assert(ws.take(k + 1).last() == ws[k]);
                }
                indy += 1;
            }
            proof {
                assert((indx + h) * (2 * h) + (2 * h) == (indx + 1 + h) * (2 * h))
                    by (nonlinear_arith);
            }
            indx += 1;
        }
        proof {
            if h > 0 {
                assert((h + h) * (2 * h) == (2 * h) * (2 * h)) by (nonlinear_arith);
            }
            assert(ws.take((indx + h) * (2 * h)) =~= ws);
        }
    }
}

pub open spec fn min(a: int, b: int) -> int {
    if a < b {
        a
    } else {
        b
    }
}

pub open spec fn max(a: int, b: int) -> int {
    if a < b {
        b
    } else {
        a
    }
}

pub open spec fn min3(a: int, b: int, c: int) -> int {
    min(min(a, b), c)
}

pub open spec fn max3(a: int, b: int, c: int) -> int {
    max(max(a, b), c)
}

fn low(a: isize, b: isize) -> (r: isize)
    ensures
        r == min(a as int, b as int),
{
    if a < b {
        a
    } else {
        b
    }
}

fn high(a: isize, b: isize) -> (r: isize)
    ensures
        r == max(a as int, b as int),
{
    if a < b {
        b
    } else {
        a
    }
}

/// The writes of a square of half-side `h` around `(x, y)`: offsets from `-h`
/// up to `h - 1` on each axis, x outermost, all at depth 1.0.
pub open spec fn square_writes(x: int, y: int, h: int, color: Color) -> Seq<PixelWrite> {
    let n = if h > 0 {
        2 * h
    } else {
        0
    };
    Seq::new(
        (n * n) as nat,
        |k: int|
            PixelWrite {
                x: (x - h + k / n) as isize,
                y: (y - h + k % n) as isize,
                depth: DEPTH_ONE,
                color,
            },
    )
}

/// A frame's dimensions fit well inside `isize` when its buffers fit in memory.
proof fn lemma_dims_fit(v: FrameView)
    requires
        v.wf(),
    ensures
        v.width == 0 || v.height == 0 || (v.width <= isize::MAX / 2 && v.height <= isize::MAX / 2),
{
    if v.width > 0 && v.height > 0 {
        assert(v.width <= v.width * v.height && v.height <= v.width * v.height)
            by (nonlinear_arith)
            requires
                v.width > 0,
                v.height > 0,
        ;
    }
}

proof fn lemma_square_step(x: int, y: int, h: int, color: Color, i: int, j: int)
    requires
        -h <= i < h,
        -h <= j < h,
    ensures
        ({
            let k = (i + h) * (2 * h) + (j + h);
            &&& 0 <= k < (2 * h) * (2 * h)
            &&& k / (2 * h) == i + h
            &&& k % (2 * h) == j + h
            &&& square_writes(x, y, h, color)[k] == PixelWrite {
                x: (x + i) as isize,
                y: (y + j) as isize,
                depth: DEPTH_ONE,
                color,
            }
        }),
{
    let n = 2 * h;
    let k = (i + h) * n + (j + h);
    assert(0 <= k < n * n) by (nonlinear_arith)
        requires
            -h <= i < h,
            -h <= j < h,
            n == 2 * h,
            k == (i + h) * n + (j + h),
    ;
    vstd::arithmetic::div_mod::lemma_fundamental_div_mod_converse(k, n, i + h, j + h);
}

/// Whether write `w` is aimed at pixel `(px, py)` with a depth within `[0, 1]`.
pub open spec fn aims_at(w: PixelWrite, px: int, py: int) -> bool {
    w.x as int == px && w.y as int == py && w.depth <= DEPTH_ONE
}

/// Writes keep the buffer's shape and textures.
pub proof fn lemma_write_all_shape(v: FrameView, ws: Seq<PixelWrite>)
    requires
        v.wf(),
    ensures
        v.write_all(ws).wf(),
        v.write_all(ws).width == v.width,
        v.write_all(ws).height == v.height,
        v.write_all(ws).textures == v.textures,
    decreases ws.len(),
{
    if ws.len() > 0 {
        lemma_write_all_shape(v, ws.drop_last());
        let f0 = v.write_all(ws.drop_last());
        let w = ws.last();
        if f0.accepts(w.x as int, w.y as int, w.depth) {
            lemma_pixel_in_range(f0.width, f0.height, w.x as int, w.y as int);
        }
    }
}

/// Depth buffering: after any sequence of writes, each on-screen pixel holds
/// the smallest depth among its starting depth and the in-range depths written
/// to it, and its colour is the one written with that depth by the earliest
/// write that reached it, or its starting colour if no write was nearer. A
/// later write that is farther, or equally far, never replaces a nearer one.
pub proof fn lemma_depth_buffer(v: FrameView, ws: Seq<PixelWrite>, px: int, py: int)
    requires
        v.wf(),
        v.in_bounds(px, py),
    ensures
        ({
            let f = v.write_all(ws);
            let i = pixel_index(v.width, px, py);
            &&& f.depth[i] <= v.depth[i]
            &&& forall|k: int|
                0 <= k < ws.len() && aims_at(#[trigger] ws[k], px, py) ==> f.depth[i]
                    <= ws[k].depth
            &&& (f.depth[i] == v.depth[i] && f.color_at(i) == v.color_at(i)) || exists|k: int|
                0 <= k < ws.len() && aims_at(#[trigger] ws[k], px, py) && ws[k].depth
                    == f.depth[i] && ws[k].color == f.color_at(i) && forall|j: int|
                    0 <= j < k && aims_at(#[trigger] ws[j], px, py) ==> ws[j].depth > f.depth[i]
        }),
    decreases ws.len(),
{
    let i = pixel_index(v.width, px, py);
    lemma_pixel_in_range(v.width, v.height, px, py);
    if ws.len() > 0 {
        let n = ws.len() - 1;
        let prev = ws.drop_last();
        lemma_depth_buffer(v, prev, px, py);
        lemma_write_all_shape(v, prev);
        let f0 = v.write_all(prev);
        let w = ws[n];
        let f = v.write_all(ws);
        assert(f == f0.write(w.x as int, w.y as int, w.depth, w.color));
        assert forall|k: int| 0 <= k < n implies ws[k] == prev[k] by {}
        if f0.accepts(w.x as int, w.y as int, w.depth) {
            let i2 = pixel_index(f0.width, w.x as int, w.y as int);
            lemma_pixel_in_range(f0.width, f0.height, w.x as int, w.y as int);
            if i2 == i {
                lemma_pixel_index_injective(v.width, px, py, w.x as int, w.y as int);
                assert(f.color_at(i) == w.color);
                assert(aims_at(ws[n], px, py));
                assert forall|j: int| 0 <= j < n && aims_at(#[trigger] ws[j], px, py) implies ws[j].depth
                    > f.depth[i] by {
                    assert(aims_at(prev[j], px, py));
                }
            } else {
                assert(f.depth[i] == f0.depth[i]);
                assert(f.color_at(i) == f0.color_at(i));
                if aims_at(w, px, py) {
                    lemma_pixel_in_range(v.width, v.height, px, py);
                }
                assert forall|k: int|
                    0 <= k < ws.len() && aims_at(#[trigger] ws[k], px, py) implies f.depth[i]
                    <= ws[k].depth by {
                    if k < n {
                        assert(aims_at(prev[k], px, py));
                    }
                }
                if !(f0.depth[i] == v.depth[i] && f0.color_at(i) == v.color_at(i)) {
                    let k = choose|k: int|
                        0 <= k < prev.len() && aims_at(#[trigger] prev[k], px, py) && prev[k].depth
                            == f0.depth[i] && prev[k].color == f0.color_at(i) && forall|j: int|
                            0 <= j < k && aims_at(#[trigger] prev[j], px, py) ==> prev[j].depth
                                > f0.depth[i];
                    assert(aims_at(ws[k], px, py));
                    assert forall|j: int| 0 <= j < k && aims_at(#[trigger] ws[j], px, py) implies ws[j].depth
                        > f.depth[i] by {
                        assert(aims_at(prev[j], px, py));
                    }
                }
            }
        } else {
            assert(f == f0);
            assert forall|k: int|
                0 <= k < ws.len() && aims_at(#[trigger] ws[k], px, py) implies f.depth[i]
                <= ws[k].depth by {
                if k < n {
                    assert(aims_at(prev[k], px, py));
                }
            }
            if !(f0.depth[i] == v.depth[i] && f0.color_at(i) == v.color_at(i)) {
                let k = choose|k: int|
                    0 <= k < prev.len() && aims_at(#[trigger] prev[k], px, py) && prev[k].depth
                        == f0.depth[i] && prev[k].color == f0.color_at(i) && forall|j: int|
                        0 <= j < k && aims_at(#[trigger] prev[j], px, py) ==> prev[j].depth
                            > f0.depth[i];
                assert(aims_at(ws[k], px, py));
                assert forall|j: int| 0 <= j < k && aims_at(#[trigger] ws[j], px, py) implies ws[j].depth
                    > f.depth[i] by {
                    assert(aims_at(prev[j], px, py));
                }
            }
        }
    }
}

} // verus!
