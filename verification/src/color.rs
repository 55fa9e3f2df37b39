//! The `Color` value type and the `ColorMap` palette that maps an 8-bit
//! color index to an RGBA color.

use vstd::prelude::*;

verus! {

/// An RGBA color. The alpha channel rides along unscaled.
#[derive(Debug, Clone, Copy, PartialEq, Eq, Structural)]
pub struct Color {
    pub red: u8,
    pub green: u8,
    pub blue: u8,
    pub alpha: u8,
}

/// One channel scaled by the ratio `num / den`, rounded to nearest
/// (halves away from zero) and saturated at 255.
pub open spec fn scaled_channel(c: u8, num: u32, den: u32) -> u8
    recommends
        den > 0,
{
    let q = (2 * c * num + den) / (2 * den);
    if q > 255 {
        255
    } else {
        q as u8
    }
}

impl Color {
    /// `self` with each RGB channel multiplied by `num / den`, rounded
    /// to nearest and saturated at 255; alpha is never scaled.
    pub open spec fn spec_scale(self, num: u32, den: u32) -> Color
        recommends
            den > 0,
    {
        Color {
            red: scaled_channel(self.red, num, den),
            green: scaled_channel(self.green, num, den),
            blue: scaled_channel(self.blue, num, den),
            alpha: self.alpha,
        }
    }

    /// Multiply each RGB channel by the ratio `num / den`, rounding to
    /// nearest and saturating at 255. Alpha is left alone.
    pub fn scale(&self, num: u32, den: u32) -> (r: Color)
        requires
            den > 0,
        ensures
            r == self.spec_scale(num, den),
    {
        Color {
            red: scale_channel(self.red, num, den),
            green: scale_channel(self.green, num, den),
            blue: scale_channel(self.blue, num, den),
            alpha: self.alpha,
        }
    }

    /// Read a color out of a byte quadruple in blue, green, red, alpha
    /// order.
    pub fn from_bgra(color: [u8; 4]) -> (c: Color)
        ensures
            c.blue == color[0],
            c.green == color[1],
            c.red == color[2],
            c.alpha == color[3],
    {
        Color { blue: color[0], green: color[1], red: color[2], alpha: color[3] }
    }

    /// The channels as a byte triple. Note the order: blue rides in
    /// the second slot, before green.
    pub fn to_rgb(&self) -> (r: [u8; 3])
        ensures
            r@ =~= seq![self.red, self.blue, self.green],
    {
        [self.red, self.blue, self.green]
    }

    /// The channels as a byte quadruple. Note the order: blue rides
    /// in the second slot, before green; alpha comes last.
    pub fn to_rgba(&self) -> (r: [u8; 4])
        ensures
            r@ =~= seq![self.red, self.blue, self.green, self.alpha],
    {
        [self.red, self.blue, self.green, self.alpha]
    }

    pub fn to_bgr(&self) -> (r: [u8; 3])
        ensures
            r@ =~= seq![self.blue, self.green, self.red],
    {
        [self.blue, self.green, self.red]
    }

    pub fn to_bgra(&self) -> (r: [u8; 4])
        ensures
            r@ =~= seq![self.blue, self.green, self.red, self.alpha],
    {
        [self.blue, self.green, self.red, self.alpha]
    }

    pub fn black() -> (c: Color)
        ensures
            c == (Color { red: 0, green: 0, blue: 0, alpha: 0 }),
    {
        Color { red: 0, green: 0, blue: 0, alpha: 0 }
    }

    pub fn white() -> (c: Color)
        ensures
            c == (Color { red: 255, green: 255, blue: 255, alpha: 0 }),
    {
        Color { red: 255, green: 255, blue: 255, alpha: 0 }
    }

    pub fn white_norm() -> (c: Color)
        ensures
            c == (Color { red: 85, green: 85, blue: 85, alpha: 0 }),
    {
        Color { red: 85, green: 85, blue: 85, alpha: 0 }
    }

    pub fn red() -> (c: Color)
        ensures
            c == (Color { red: 255, green: 0, blue: 0, alpha: 0 }),
    {
        Color { red: 255, green: 0, blue: 0, alpha: 0 }
    }

    pub fn orange() -> (c: Color)
        ensures
            c == (Color { red: 255, green: 127, blue: 0, alpha: 0 }),
    {
        Color { red: 255, green: 127, blue: 0, alpha: 0 }
    }

    pub fn orange_norm() -> (c: Color)
        ensures
            c == (Color { red: 170, green: 85, blue: 0, alpha: 0 }),
    {
        Color { red: 170, green: 85, blue: 0, alpha: 0 }
    }

    pub fn yellow() -> (c: Color)
        ensures
            c == (Color { red: 255, green: 255, blue: 0, alpha: 0 }),
    {
        Color { red: 255, green: 255, blue: 0, alpha: 0 }
    }

    pub fn yellow_norm() -> (c: Color)
        ensures
            c == (Color { red: 128, green: 128, blue: 0, alpha: 0 }),
    {
        Color { red: 128, green: 128, blue: 0, alpha: 0 }
    }

    pub fn green() -> (c: Color)
        ensures
            c == (Color { red: 0, green: 255, blue: 0, alpha: 0 }),
    {
        Color { red: 0, green: 255, blue: 0, alpha: 0 }
    }

    pub fn blue() -> (c: Color)
        ensures
            c == (Color { red: 0, green: 0, blue: 255, alpha: 0 }),
    {
        Color { red: 0, green: 0, blue: 255, alpha: 0 }
    }

    pub fn magenta() -> (c: Color)
        ensures
            c == (Color { red: 255, green: 0, blue: 255, alpha: 0 }),
    {
        Color { red: 255, green: 0, blue: 255, alpha: 0 }
    }

    pub fn magenta_norm() -> (c: Color)
        ensures
            c == (Color { red: 128, green: 0, blue: 128, alpha: 0 }),
    {
        Color { red: 128, green: 0, blue: 128, alpha: 0 }
    }

    pub fn purple() -> (c: Color)
        ensures
            c == (Color { red: 128, green: 0, blue: 128, alpha: 0 }),
    {
        Color { red: 128, green: 0, blue: 128, alpha: 0 }
    }
}

impl Default for Color {
    fn default() -> (c: Color)
        ensures
            c == (Color { red: 0, green: 0, blue: 0, alpha: 0 }),
    {
        Color { red: 0, green: 0, blue: 0, alpha: 0 }
    }
}

/// Scale one channel by `num / den`, rounding to nearest and
/// saturating at 255.
fn scale_channel(c: u8, num: u32, den: u32) -> (r: u8)
    requires
        den > 0,
    ensures
        r == scaled_channel(c, num, den),
{
    proof {
        vstd::arithmetic::mul::lemma_mul_upper_bound(
            2 * (c as int),
            510,
            num as int,
            0xFFFF_FFFF,
        );
    }
    let prod: u64 = 2 * (c as u64) * (num as u64) + (den as u64);
    let q: u64 = prod / (2 * (den as u64));
    if q > 255 {
        255
    } else {
        q as u8
    }
}

/// Scaling by the ratio 1 leaves every channel as it was.
pub proof fn lemma_scale_one(c: Color, den: u32)
    requires
        den > 0,
    ensures
        c.spec_scale(den, den) == c,
{
    lemma_scaled_channel_one(c.red, den);
    lemma_scaled_channel_one(c.green, den);
    lemma_scaled_channel_one(c.blue, den);
}

/// Scaling by the ratio 0 blacks out every RGB channel and keeps alpha.
pub proof fn lemma_scale_zero(c: Color, den: u32)
    requires
        den > 0,
    ensures
        c.spec_scale(0, den) == (Color { red: 0, green: 0, blue: 0, alpha: c.alpha }),
{
    assert(c.spec_scale(0, den).red == 0) by {
        lemma_scaled_channel_zero(c.red, den);
    }
    assert(c.spec_scale(0, den).green == 0) by {
        lemma_scaled_channel_zero(c.green, den);
    }
    assert(c.spec_scale(0, den).blue == 0) by {
        lemma_scaled_channel_zero(c.blue, den);
    }
}

/// The palette every fresh `ColorMap` starts from: a small reserved
/// set of indices, the rest black and transparent.
pub open spec fn default_palette() -> Seq<Color> {
    Seq::new(
        256,
        |i: int|
            if i == 1 {
                Color { red: 255, green: 0, blue: 0, alpha: 0 }
            } else if i == 2 {
                Color { red: 170, green: 85, blue: 0, alpha: 0 }
            } else if i == 3 {
                Color { red: 128, green: 128, blue: 0, alpha: 0 }
            } else if i == 4 {
                Color { red: 0, green: 255, blue: 0, alpha: 0 }
            } else if i == 5 {
                Color { red: 0, green: 0, blue: 255, alpha: 0 }
            } else if i == 6 {
                Color { red: 128, green: 0, blue: 128, alpha: 0 }
            } else {
                Color { red: 0, green: 0, blue: 0, alpha: 0 }
            },
    )
}

/// A table of exactly 256 colors, indexed by the 8-bit color index of
/// an update record.
pub struct ColorMap {
    map: Vec<Color>,
}

impl View for ColorMap {
    type V = Seq<Color>;

    closed spec fn view(&self) -> Seq<Color> {
        self.map@
    }
}

impl ColorMap {
    #[verifier::type_invariant]
    closed spec fn wf(self) -> bool {
        self.map@.len() == 256
    }

    /// The number of entries: one color per 8-bit index.
    pub fn len(&self) -> (n: usize)
        ensures
            n == self@.len(),
            n == 256,
    {
        proof {
            use_type_invariant(&*self);
        }
        self.map.len()
    }

    /// The color stored at index `idx`.
    pub fn get(&self, idx: u8) -> (c: Color)
        ensures
            c == self@[idx as int],
    {
        proof {
            use_type_invariant(&*self);
        }
        self.map[idx as usize]
    }

    /// Store `c` at index `idx`.
    pub fn set(&mut self, idx: u8, c: Color)
        ensures
            final(self)@ == old(self)@.update(idx as int, c),
    {
        proof {
            use_type_invariant(&*self);
        }
        self.map[idx as usize] = c;
    }

    /// Scale the first `end` palette entries by `num / den`, leaving
    /// the rest untouched.
    pub fn scale_range(&mut self, end: usize, num: u32, den: u32)
        requires
            end <= 256,
            den > 0,
        ensures
            final(self)@.len() == 256,
            forall|i: int| 0 <= i < end ==> final(self)@[i] == old(self)@[i].spec_scale(num, den),
            forall|i: int| end <= i < 256 ==> final(self)@[i] == old(self)@[i],
    {
        proof {
            use_type_invariant(&*self);
        }
        let mut i: usize = 0;
        while i < end
            invariant
                i <= end <= 256,
                den > 0,
                self.map@.len() == 256,
                forall|k: int| 0 <= k < i ==> self.map@[k] == old(self).map@[k].spec_scale(num, den),
                forall|k: int| i <= k < 256 ==> self.map@[k] == old(self).map@[k],
            decreases end - i,
        {
            let c = self.map[i];
            self.map[i] = c.scale(num, den);
            i = i + 1;
        }
    }
}

impl Default for ColorMap {
    /// A fresh palette holding the reserved default colors.
    fn default() -> (cm: ColorMap)
        ensures
            cm@ == default_palette(),
    {
        let mut map: Vec<Color> = vec![Color { red: 0, green: 0, blue: 0, alpha: 0 }; 256];
        map[1] = Color { red: 255, green: 0, blue: 0, alpha: 0 };
        map[2] = Color { red: 170, green: 85, blue: 0, alpha: 0 };
        map[3] = Color { red: 128, green: 128, blue: 0, alpha: 0 };
        map[4] = Color { red: 0, green: 255, blue: 0, alpha: 0 };
        map[5] = Color { red: 0, green: 0, blue: 255, alpha: 0 };
        map[6] = Color { red: 128, green: 0, blue: 128, alpha: 0 };
        proof {
            assert(map@ =~= default_palette());
        }
        ColorMap { map }
    }
}

proof fn lemma_scaled_channel_one(c: u8, den: u32)
    requires
        den > 0,
    ensures
        scaled_channel(c, den, den) == c,
{
    assert((2 * c * den + den) / (2 * den) == c) by (nonlinear_arith)
        requires
            den > 0,
    ;
}

proof fn lemma_scaled_channel_zero(c: u8, den: u32)
    requires
        den > 0,
    ensures
        scaled_channel(c, 0, den) == 0,
{
    assert((2 * c * 0 + den) / (2 * den) == 0) by (nonlinear_arith)
        requires
            den > 0,
    ;
}

} // verus!
