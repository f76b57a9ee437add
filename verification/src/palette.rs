//! Color palettes. The default is Pico-8's 16 colors; a game may supply
//! its own from `palette.png`, read in row-major order. Slots are
//! 1-based; slot `0` is true white whatever the palette, and any other
//! slot outside the palette is magenta, an obvious "unknown color".

use vstd::prelude::*;

verus! {

/// An 8-bit RGBA color.
#[derive(Copy, Clone, Debug, PartialEq, Eq, Structural)]
pub struct Rgba {
    pub r: u8,
    pub g: u8,
    pub b: u8,
    pub a: u8,
}

/// An opaque color.
pub open spec fn opaque(r: u8, g: u8, b: u8) -> Rgba {
    Rgba { r, g, b, a: 255 }
}

/// The color of slot `0`: true white, the identity tint.
pub open spec fn true_white() -> Rgba {
    opaque(255, 255, 255)
}

/// The color of a slot outside the palette.
pub open spec fn magenta() -> Rgba {
    opaque(255, 0, 255)
}

/// The Pico-8 palette, slot 1 first.
pub open spec fn pico8_colors() -> Seq<Rgba> {
    seq![
        opaque(0, 0, 0),
        opaque(29, 43, 83),
        opaque(126, 37, 83),
        opaque(0, 135, 81),
        opaque(171, 82, 54),
        opaque(95, 87, 79),
        opaque(194, 195, 199),
        opaque(255, 241, 232),
        opaque(255, 0, 77),
        opaque(255, 163, 0),
        opaque(255, 236, 39),
        opaque(0, 228, 54),
        opaque(41, 173, 255),
        opaque(131, 118, 156),
        opaque(255, 119, 168),
        opaque(255, 204, 170),
    ]
}

/// The color of slot `idx` in a palette holding `colors`.
pub open spec fn lookup_spec(colors: Seq<Rgba>, idx: i32) -> Rgba {
    if idx == 0 {
        true_white()
    } else if idx < 0 || idx > colors.len() {
        magenta()
    } else {
        colors[idx - 1]
    }
}

/// The position of the first color with RGB `(r, g, b)` at or after `i`.
pub open spec fn first_match(colors: Seq<Rgba>, r: u8, g: u8, b: u8, i: int) -> Option<int>
    decreases colors.len() - i,
{
    if i < 0 || i >= colors.len() {
        None
    } else if colors[i].r == r && colors[i].g == g && colors[i].b == b {
        Some(i)
    } else {
        first_match(colors, r, g, b, i + 1)
    }
}

/// The 1-based slot of the first exact RGB match, alpha ignored.
pub open spec fn index_of_spec(colors: Seq<Rgba>, r: u8, g: u8, b: u8) -> Option<i32> {
    match first_match(colors, r, g, b, 0) {
        Some(i) => Some((i + 1) as i32),
        None => None,
    }
}

/// A palette: its colors in slot order.
#[derive(Clone, Debug)]
pub struct Palette {
    colors: Vec<Rgba>,
}

impl Palette {
    /// The colors, slot 1 first.
    pub closed spec fn view(&self) -> Seq<Rgba> {
        self.colors@
    }

    /// A palette holding `colors`, slot 1 first.
    pub fn from_colors(colors: Vec<Rgba>) -> (p: Palette)
        ensures
            p@ == colors@,
    {
        Palette { colors }
    }

    /// The 16-color Pico-8 palette, the engine default.
    pub fn pico8() -> (p: Palette)
        ensures
            p@ == pico8_colors(),
    {
        let colors = vec![
            Rgba { r: 0, g: 0, b: 0, a: 255 },
            Rgba { r: 29, g: 43, b: 83, a: 255 },
            Rgba { r: 126, g: 37, b: 83, a: 255 },
            Rgba { r: 0, g: 135, b: 81, a: 255 },
            Rgba { r: 171, g: 82, b: 54, a: 255 },
            Rgba { r: 95, g: 87, b: 79, a: 255 },
            Rgba { r: 194, g: 195, b: 199, a: 255 },
            Rgba { r: 255, g: 241, b: 232, a: 255 },
            Rgba { r: 255, g: 0, b: 77, a: 255 },
            Rgba { r: 255, g: 163, b: 0, a: 255 },
            Rgba { r: 255, g: 236, b: 39, a: 255 },
            Rgba { r: 0, g: 228, b: 54, a: 255 },
            Rgba { r: 41, g: 173, b: 255, a: 255 },
            Rgba { r: 131, g: 118, b: 156, a: 255 },
            Rgba { r: 255, g: 119, b: 168, a: 255 },
            Rgba { r: 255, g: 204, b: 170, a: 255 },
        ];
        assert(colors@ =~= pico8_colors());
        Palette { colors }
    }

    /// A palette from the decoded pixels of a `width` x `height`
    /// `palette.png`, in row-major order: the first `width * height`
    /// pixels. An image with no area, or no pixels, is an error.
    pub fn from_image_pixels(width: usize, height: usize, pixels: Vec<Rgba>) -> (r: Result<Palette, String>)
        ensures
            width == 0 || height == 0 ==> (r matches Err(m) && m@ == "palette.png is empty"@),
            width > 0 && height > 0 && pixels@.len() == 0
                ==> (r matches Err(m) && m@ == "palette.png decoded to zero pixels"@),
            width > 0 && height > 0 && pixels@.len() > 0 ==> (r matches Ok(p)
                && p@ == pixels@.take(if width * height < pixels@.len() { width * height } else { pixels@.len() as int })),
    {
        if width == 0 || height == 0 {
            return Err(String::from_str("palette.png is empty"));
        }
        assert(width * height >= 1) by (nonlinear_arith)
            requires
                width >= 1,
                height >= 1,
        ;
        let n: usize = match width.checked_mul(height) {
            Some(a) => if a < pixels.len() { a } else { pixels.len() },
            None => pixels.len(),
        };
        if n == 0 {
            return Err(String::from_str("palette.png decoded to zero pixels"));
        }
        let mut colors: Vec<Rgba> = Vec::new();
        let mut i: usize = 0;
        while i < n
            invariant
                n <= pixels.len(),
                0 <= i <= n,
                colors@ == pixels@.take(i as int),
            decreases n - i,
        {
            colors.push(pixels[i]);
            i = i + 1;
            assert(colors@ =~= pixels@.take(i as int));
        }
        Ok(Palette { colors })
    }

    /// The number of slots.
    pub fn len(&self) -> (r: usize)
        ensures
            r == self@.len(),
    {
        self.colors.len()
    }

    /// The color of 1-based slot `idx`: true white for `0`, magenta for a
    /// negative slot or one past the end.
    pub fn lookup(&self, idx: i32) -> (c: Rgba)
        ensures
            c == lookup_spec(self@, idx),
    {
        if idx == 0 {
            return Rgba { r: 255, g: 255, b: 255, a: 255 };
        }
        if idx < 0 {
            return Rgba { r: 255, g: 0, b: 255, a: 255 };
        }
        let k = (idx - 1) as usize;
        if k < self.colors.len() {
            self.colors[k]
        } else {
            Rgba { r: 255, g: 0, b: 255, a: 255 }
        }
    }

    /// The 1-based slot of the first color with exactly this RGB (alpha
    /// is ignored), or `None` when no slot holds it.
    pub fn index_of(&self, r: u8, g: u8, b: u8) -> (s: Option<i32>)
        ensures
            s == index_of_spec(self@, r, g, b),
    {
        let mut i: usize = 0;
        while i < self.colors.len()
            invariant
                0 <= i <= self.colors.len(),
                first_match(self@, r, g, b, i as int) == first_match(self@, r, g, b, 0),
            decreases self.colors.len() - i,
        {
            let c = self.colors[i];
            if c.r == r && c.g == g && c.b == b {
                return Some((i + 1) as i32);
            }
            i = i + 1;
        }
        None
    }
}

/// Slot `idx` of the built-in Pico-8 palette, whatever palette the game
/// has loaded; the engine's own interface draws with these colors.
pub fn engine_color(idx: i32) -> (c: Rgba)
    ensures
        c == lookup_spec(pico8_colors(), idx),
{
    Palette::pico8().lookup(idx)
}

/// No two slots of the palette hold the same RGB.
pub open spec fn distinct_rgb(colors: Seq<Rgba>) -> bool {
    forall|i: int, j: int| 0 <= i < j < colors.len() ==> !(#[trigger] colors[i].r == #[trigger] colors[j].r
        && colors[i].g == colors[j].g && colors[i].b == colors[j].b)
}

proof fn lemma_first_match_at(colors: Seq<Rgba>, k: int, i: int)
    requires
        distinct_rgb(colors),
        0 <= i <= k < colors.len(),
    ensures
        first_match(colors, colors[k].r, colors[k].g, colors[k].b, i) == Some(k),
    decreases k - i,
{
    if i < k {
        assert(!(colors[i].r == colors[k].r && colors[i].g == colors[k].g && colors[i].b == colors[k].b));
        lemma_first_match_at(colors, k, i + 1);
    }
}

/// In a palette whose slots hold distinct colors, looking a slot's color
/// back up gives the slot: `index_of` inverts `lookup` on `1..=len`.
pub proof fn lemma_index_of_inverts_lookup(colors: Seq<Rgba>, idx: i32)
    requires
        distinct_rgb(colors),
        1 <= idx <= colors.len(),
    ensures
        index_of_spec(colors, lookup_spec(colors, idx).r, lookup_spec(colors, idx).g, lookup_spec(colors, idx).b)
            == Some(idx),
{
    lemma_first_match_at(colors, idx - 1, 0);
}

/// The Pico-8 palette holds sixteen distinct, opaque colors.
pub proof fn lemma_pico8_distinct()
    ensures
        pico8_colors().len() == 16,
        distinct_rgb(pico8_colors()),
        forall|i: int| 0 <= i < 16 ==> (#[trigger] pico8_colors()[i]).a == 255,
{
    let p = pico8_colors();
    assert(distinct_rgb(p)) by {
        assert forall|i: int, j: int| 0 <= i < j < p.len() implies !(#[trigger] p[i].r == #[trigger] p[j].r
            && p[i].g == p[j].g && p[i].b == p[j].b) by {
            assert(0 <= i < 16 && 0 <= j < 16);
        }
    }
}

} // verus!
