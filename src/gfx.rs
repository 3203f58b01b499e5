use vstd::prelude::*;

verus! {

/// Edge length of a texture, in texels.
pub const TEXTURE_SIZE: usize = 128;

/// Largest texel coordinate along an edge.
pub const MAX_TEXTURE_COORD: usize = 127;

/// Largest texel index of a texture, and the mask that wraps any index into it.
pub const TEXTURE_LEN: usize = 16383;

/// Number of texels in a texture.
pub const TEXTURE_TEXELS: usize = 16384;

/// Number of bytes of one texture in a packed RGBA byte stream.
pub const TEXTURE_BYTES: usize = 65536;

#[derive(Clone, Copy, Debug, PartialEq, Eq, Structural)]
pub struct Color {
    pub r: u8,
    pub g: u8,
    pub b: u8,
    pub a: u8,
}

/// `base` modulated by `light`: each colour channel is the product of the two
/// scaled back by 255; the alpha of `base` is kept.
pub open spec fn modulate(base: Color, light: Color) -> Color {
    Color {
        r: (base.r * light.r / 255) as u8,
        g: (base.g * light.g / 255) as u8,
        b: (base.b * light.b / 255) as u8,
        a: base.a,
    }
}

/// `color` at brightness `level`, where 255 and above is full brightness.
pub open spec fn attenuated(color: Color, level: int) -> Color {
    let l = if level < 255 {
        level
    } else {
        255
    };
    Color {
        r: (color.r * l / 255) as u8,
        g: (color.g * l / 255) as u8,
        b: (color.b * l / 255) as u8,
        a: 255,
    }
}

pub open spec fn saturating_channel(a: u8, b: u8) -> u8 {
    if a + b > 255 {
        255
    } else {
        (a + b) as u8
    }
}

/// Channel-wise sum, each channel capped at 255.
pub open spec fn saturating_sum(c1: Color, c2: Color) -> Color {
    Color {
        r: saturating_channel(c1.r, c2.r),
        g: saturating_channel(c1.g, c2.g),
        b: saturating_channel(c1.b, c2.b),
        a: saturating_channel(c1.a, c2.a),
    }
}

proof fn lemma_scaled_byte(a: u8, b: int)
    requires
        0 <= b <= 255,
    ensures
        0 <= a * b / 255 <= 255,
{
    assert(0 <= a * b <= 255 * 255) by (nonlinear_arith)
        requires
            0 <= b <= 255,
            0 <= a <= 255,
    ;
}

fn scale_channel(a: u8, b: u32) -> (r: u8)
    requires
        b <= 255,
    ensures
        r == a * b / 255,
{
    proof {
        lemma_scaled_byte(a, b as int);
    }
    ((a as u32) * b / 255) as u8
}

impl Color {
    pub fn new(r: u8, g: u8, b: u8, a: u8) -> (c: Self)
        ensures
            c == (Color { r, g, b, a }),
    {
        Color { r, g, b, a }
    }

    /// This colour modulated by `other`; alpha is taken from `self`.
    pub fn compose(&self, other: Color) -> (c: Self)
        ensures
            c == modulate(*self, other),
    {
        Color {
            r: scale_channel(self.r, other.r as u32),
            g: scale_channel(self.g, other.g as u32),
            b: scale_channel(self.b, other.b as u32),
            a: self.a,
        }
    }

    /// The light this colour gives at brightness `level`, capped at 255; the
    /// result is opaque.
    pub fn attenuate(&self, level: u32) -> (c: Self)
        ensures
            c == attenuated(*self, level as int),
    {
        let l: u32 = if level < 255 {
            level
        } else {
            255
        };
        Color {
            r: scale_channel(self.r, l),
            g: scale_channel(self.g, l),
            b: scale_channel(self.b, l),
            a: 255,
        }
    }

    /// Adds the light `other` to this one, channel by channel, never past 255.
    pub fn accumulate(&self, other: Color) -> (c: Self)
        ensures
            c == saturating_sum(*self, other),
    {
        Color {
            r: self.r.saturating_add(other.r),
            g: self.g.saturating_add(other.g),
            b: self.b.saturating_add(other.b),
            a: self.a.saturating_add(other.a),
        }
    }
}

/// A square texture of `TEXTURE_SIZE` x `TEXTURE_SIZE` texels, row by row.
#[derive(Debug)]
pub struct Texture {
    data: Vec<Color>,
}

/// The texel index that texel `i` wraps to: its low fourteen bits.
pub open spec fn wrap_texel(i: int) -> int {
    i % (TEXTURE_TEXELS as int)
}

/// The colour of texel `(x, y)` of the checkerboard: squares of 32 texels,
/// black where the square coordinates have an even sum.
pub open spec fn checker_color(x: int, y: int) -> Color {
    if (x / 32 + y / 32) % 2 == 0 {
        Color { r: 0, g: 0, b: 0, a: 255 }
    } else {
        Color { r: 255, g: 255, b: 255, a: 255 }
    }
}

proof fn lemma_wrap(t: i64)
    ensures
        (t & 16383i64) as int == wrap_texel(t as int),
        0 <= (t & 16383i64) < 16384,
{
    assert(0 <= (t & 16383i64) < 16384) by (bit_vector);
    assert(((t >> 14u64) as i128) * 16384i128 + ((t & 16383i64) as i128) == t as i128)
        by (bit_vector);
    vstd::arithmetic::div_mod::lemma_fundamental_div_mod_converse(
        t as int,
        16384,
        (t >> 14u64) as int,
        (t & 16383i64) as int,
    );
}

impl View for Texture {
    type V = Seq<Color>;

    closed spec fn view(&self) -> Seq<Color> {
        self.data@
    }
}

impl Texture {
    pub open spec fn wf(&self) -> bool {
        self@.len() == TEXTURE_TEXELS
    }

    /// A texture holding `data`, row by row.
    pub fn new(data: Vec<Color>) -> (t: Self)
        requires
            data@.len() == TEXTURE_TEXELS,
        ensures
            t@ == data@,
            t.wf(),
    {
        Texture { data }
    }

    /// A black and white checkerboard of 32-texel squares.
    pub fn checkerboard() -> (t: Self)
        ensures
            t.wf(),
            forall|i: int|
                0 <= i < TEXTURE_TEXELS ==> #[trigger] t@[i] == checker_color(i % 128, i / 128),
    {
        let mut data: Vec<Color> = Vec::with_capacity(TEXTURE_TEXELS);
        let mut indy: usize = 0;
        while indy < TEXTURE_SIZE
            invariant
                indy <= TEXTURE_SIZE,
                data@.len() == indy * 128,
                forall|i: int|
                    0 <= i < data@.len() ==> #[trigger] data@[i] == checker_color(i % 128, i / 128),
            decreases TEXTURE_SIZE - indy,
        {
            let mut indx: usize = 0;
            while indx < TEXTURE_SIZE
                invariant
                    indy < TEXTURE_SIZE,
                    indx <= TEXTURE_SIZE,
                    data@.len() == indy * 128 + indx,
                    forall|i: int|
                        0 <= i < data@.len() ==> #[trigger] data@[i] == checker_color(
                            i % 128,
                            i / 128,
                        ),
                decreases TEXTURE_SIZE - indx,
            {
                let x = indx / 32;
                let y = indy / 32;
                let ghost i = data@.len() as int;
                assert(i % 128 == indx as int && i / 128 == indy as int) by {
                    vstd::arithmetic::div_mod::lemma_fundamental_div_mod_converse(
                        i,
                        128,
                        indy as int,
                        indx as int,
                    );
                }
                if (x + y) % 2 == 0 {
                    data.push(Color::new(0, 0, 0, 255));
                } else {
                    data.push(Color::new(255, 255, 255, 255));
                }
                indx += 1;
            }
            indy += 1;
        }
        Texture { data }
    }

    /// The colour of texel `texel` after wrapping it into the texture: only its
    /// low fourteen bits count, so every index, negative ones included, reads
    /// a texel of this texture.
    pub fn sample_texel(&self, texel: i64) -> (c: Color)
        requires
            self.wf(),
        ensures
            c == self@[wrap_texel(texel as int)],
    {
        proof {
            lemma_wrap(texel);
        }
        self.data[(texel & 16383i64) as usize]
    }
}

} // verus!
