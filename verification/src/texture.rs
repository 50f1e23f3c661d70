//! Texture presets and the integer side of the value-noise generator.
//!
//! The generator itself evaluates smooth value noise in single precision;
//! that arithmetic lives outside this crate.  What is decided here is every
//! integer the evaluation uses: the lattice hash, the wrap-around of lattice
//! cells (which makes a block tile seamlessly), the lattices of each octave of
//! a fractal layer, and the recipe of each preset (layers, weights, colours).

use vstd::prelude::*;

verus! {

/// The four paper presets.
#[derive(Clone, Copy, Debug, PartialEq, Eq, Structural)]
pub enum TextureKind {
    ClassicMatte,
    WhisperWeave,
    Parchment,
    VellumMist,
}

/// All presets, in menu order.
pub const KINDS: [TextureKind; 4] = [
    TextureKind::ClassicMatte,
    TextureKind::WhisperWeave,
    TextureKind::Parchment,
    TextureKind::VellumMist,
];

/// Menu labels of the presets, in the order of `KINDS`.
pub const KIND_NAMES: [&'static str; 4] = [
    "Classic Matte 经典哑光",
    "Whisper Weave 织物纹理",
    "Sunbaked Parchment 羊皮纸",
    "Vellum Mist 薄纱雾面",
];

/// Side length of the square texture block, in pixels.
pub const TILE: usize = 512;

/// 32-bit wrapping multiplication.
pub open spec fn wrapping_mul32(a: u32, b: u32) -> u32 {
    ((a as nat * b as nat) % 0x1_0000_0000nat) as u32
}

/// The lattice hash: a 24-bit value of the lattice point `(x, y)` under
/// `seed`, computed with 32-bit wrapping arithmetic.
pub open spec fn lattice_hash_spec(seed: u32, x: u32, y: u32) -> u32 {
    let h0: u32 = seed ^ wrapping_mul32(x, 0x9E37_79B9u32) ^ wrapping_mul32(y, 0x85EB_CA6Bu32);
    let h1: u32 = h0 ^ (h0 >> 13u32);
    let h2: u32 = wrapping_mul32(h1, 0xC2B2_AE35u32);
    let h3: u32 = h2 ^ (h2 >> 16u32);
    h3 & 0x00FF_FFFFu32
}

/// Deterministic lattice hash.  The noise value of the lattice point is this
/// number divided by 2^24, a value in [0, 1).
pub fn lattice_hash(seed: u32, x: u32, y: u32) -> (h: u32)
    ensures
        h == lattice_hash_spec(seed, x, y),
        h < 0x0100_0000,
{
    let mut h: u32 = seed ^ x.wrapping_mul(0x9E37_79B9) ^ y.wrapping_mul(0x85EB_CA6B);
    h = h ^ (h >> 13u32);
    h = h.wrapping_mul(0xC2B2_AE35);
    h = h ^ (h >> 16u32);
    let r: u32 = h & 0x00FF_FFFF;
    assert(r < 0x0100_0000) by (bit_vector)
        requires r == h & 0x00FF_FFFFu32;
    r
}

/// The two lattice cells a coordinate falls between on a lattice of `w`
/// cells that wraps around: cell `i % w` and the next one, wrapping to 0.
pub fn lattice_cell(i: u32, w: u32) -> (r: (u32, u32))
    requires
        w > 0,
    ensures
        r.0 == i % w,
        r.1 == (r.0 + 1) % (w as int),
        r.0 < w,
        r.1 < w,
{
    let c0: u32 = i % w;
    let c1: u32 = (c0 + 1) % w;
    (c0, c1)
}

/// A noise layer of a preset.
#[derive(Clone, Copy, Debug, PartialEq, Eq, Structural)]
pub enum NoiseLayer {
    /// Value noise on a lattice of `wx` by `wy` cells stretched over the block.
    Lattice { seed: u32, wx: u32, wy: u32 },
    /// A fractal sum of `octaves` lattices: the first `base * ax` by
    /// `base * ay` cells, each next one twice as fine with half the amplitude,
    /// normalized by the sum of the amplitudes.
    Fractal { seed: u32, base: u32, octaves: u32, ax: u32, ay: u32 },
}

/// A layer and its weight in hundredths.
#[derive(Clone, Copy, Debug, PartialEq, Eq, Structural)]
pub struct WeightedLayer {
    pub weight: u32,
    pub layer: NoiseLayer,
}

/// A preset: weighted noise layers, the mean colour (red, green, blue) the
/// colour varies around, and how far it varies, in hundredths of the mean.
pub struct Recipe {
    pub layers: Vec<WeightedLayer>,
    pub mean_rgb: (u32, u32, u32),
    pub spread: u32,
}

/// The value of a preset.
pub struct RecipeView {
    pub layers: Seq<WeightedLayer>,
    pub mean_rgb: (u32, u32, u32),
    pub spread: u32,
}

impl Recipe {
    pub open spec fn view(&self) -> RecipeView {
        RecipeView { layers: self.layers@, mean_rgb: self.mean_rgb, spread: self.spread }
    }
}

pub open spec fn lattice(seed: u32, wx: u32, wy: u32) -> NoiseLayer {
    NoiseLayer::Lattice { seed, wx, wy }
}

pub open spec fn fractal(seed: u32, base: u32, octaves: u32) -> NoiseLayer {
    NoiseLayer::Fractal { seed, base, octaves, ax: 1, ay: 1 }
}

pub open spec fn weighted(weight: u32, layer: NoiseLayer) -> WeightedLayer {
    WeightedLayer { weight, layer }
}

/// The presets.
///
/// Classic Matte: fibre clumps of about 2.5 pixels, a middle layer of about
/// 8 pixels and a faint low-frequency ground, around a neutral grey.
/// Whisper Weave: fibres stretched across and down, like warp and weft.
/// Sunbaked Parchment: 4-pixel clumps and strong mottling, warm amber.
/// Vellum Mist: soft low frequencies and a thin layer of clumps.
pub open spec fn recipe_spec(kind: TextureKind) -> RecipeView {
    match kind {
        TextureKind::ClassicMatte => RecipeView {
            layers: seq![
                weighted(55, lattice(11, 200, 200)),
                weighted(25, lattice(12, 64, 64)),
                weighted(20, fractal(13, 8, 3)),
            ],
            mean_rgb: (132, 130, 126),
            spread: 50,
        },
        TextureKind::WhisperWeave => RecipeView {
            layers: seq![
                weighted(45, lattice(23, 80, 240)),
                weighted(45, lattice(29, 240, 80)),
                weighted(10, fractal(31, 8, 2)),
            ],
            mean_rgb: (130, 128, 124),
            spread: 50,
        },
        TextureKind::Parchment => RecipeView {
            layers: seq![
                weighted(35, lattice(41, 128, 128)),
                weighted(40, fractal(43, 4, 4)),
                weighted(25, fractal(47, 16, 3)),
            ],
            mean_rgb: (150, 118, 72),
            spread: 60,
        },
        TextureKind::VellumMist => RecipeView {
            layers: seq![weighted(25, lattice(53, 128, 128)), weighted(75, fractal(59, 4, 3))],
            mean_rgb: (140, 140, 140),
            spread: 35,
        },
    }
}

fn make_lattice(weight: u32, seed: u32, wx: u32, wy: u32) -> (l: WeightedLayer)
    ensures
        l == weighted(weight, lattice(seed, wx, wy)),
{
    WeightedLayer { weight, layer: NoiseLayer::Lattice { seed, wx, wy } }
}

fn make_fractal(weight: u32, seed: u32, base: u32, octaves: u32) -> (l: WeightedLayer)
    ensures
        l == weighted(weight, fractal(seed, base, octaves)),
{
    WeightedLayer { weight, layer: NoiseLayer::Fractal { seed, base, octaves, ax: 1, ay: 1 } }
}

/// The recipe of a preset.
pub fn recipe(kind: TextureKind) -> (r: Recipe)
    ensures
        r@ == recipe_spec(kind),
{
    let mut layers: Vec<WeightedLayer> = Vec::new();
    let r = match kind {
        TextureKind::ClassicMatte => {
            layers.push(make_lattice(55, 11, 200, 200));
            layers.push(make_lattice(25, 12, 64, 64));
            layers.push(make_fractal(20, 13, 8, 3));
            Recipe { layers, mean_rgb: (132, 130, 126), spread: 50 }
        },
        TextureKind::WhisperWeave => {
            layers.push(make_lattice(45, 23, 80, 240));
            layers.push(make_lattice(45, 29, 240, 80));
            layers.push(make_fractal(10, 31, 8, 2));
            Recipe { layers, mean_rgb: (130, 128, 124), spread: 50 }
        },
        TextureKind::Parchment => {
            layers.push(make_lattice(35, 41, 128, 128));
            layers.push(make_fractal(40, 43, 4, 4));
            layers.push(make_fractal(25, 47, 16, 3));
            Recipe { layers, mean_rgb: (150, 118, 72), spread: 60 }
        },
        TextureKind::VellumMist => {
            layers.push(make_lattice(25, 53, 128, 128));
            layers.push(make_fractal(75, 59, 4, 3));
            Recipe { layers, mean_rgb: (140, 140, 140), spread: 35 }
        },
    };
    assert(r@.layers =~= recipe_spec(kind).layers);
    r
}

/// The layer that varies the opacity ("paper thickness"): its value `d`
/// scales the intensity by `DENSITY_BASE + DENSITY_SWING * d` hundredths.
pub open spec fn density_layer_spec() -> NoiseLayer {
    fractal(67, 8, 2)
}

/// Opacity scale at noise value 0, in hundredths.
pub const DENSITY_BASE: u32 = 85;
/// Opacity scale added at noise value 1, in hundredths.
pub const DENSITY_SWING: u32 = 30;

/// The opacity layer.
pub fn density_layer() -> (l: NoiseLayer)
    ensures
        l == density_layer_spec(),
{
    NoiseLayer::Fractal { seed: 67, base: 8, octaves: 2, ax: 1, ay: 1 }
}

/// 2 to the power `n`.
pub open spec fn pow2(n: nat) -> nat
    decreases n,
{
    if n == 0 {
        1
    } else {
        2 * pow2((n - 1) as nat)
    }
}

/// Seed of octave `o` of a fractal layer.
pub open spec fn octave_seed(seed: u32, o: u32) -> u32 {
    ((seed as nat + wrapping_mul32(o, 7919) as nat) % 0x1_0000_0000nat) as u32
}

/// The lattice of octave `o` of a fractal layer: its seed and its size,
/// `2^o` times the first octave's.
pub open spec fn octave_spec(seed: u32, base: u32, ax: u32, ay: u32, o: u32) -> (u32, u32, u32) {
    (
        octave_seed(seed, o),
        (base * ax * pow2(o as nat)) as u32,
        (base * ay * pow2(o as nat)) as u32,
    )
}

/// A fractal layer fits in 32-bit arithmetic: the lattice sizes, doubled
/// after each octave including the last, stay below 2^32.
pub open spec fn fractal_fits(base: u32, octaves: u32, ax: u32, ay: u32) -> bool {
    &&& base * ax * pow2(octaves as nat) <= u32::MAX
    &&& base * ay * pow2(octaves as nat) <= u32::MAX
}

proof fn lemma_pow2_mono(a: nat, b: nat)
    requires
        a <= b,
    ensures
        pow2(a) <= pow2(b),
        pow2(a) >= 1,
    decreases b,
{
    if b > a {
        lemma_pow2_mono(a, (b - 1) as nat);
    } else if a > 0 {
        lemma_pow2_mono((a - 1) as nat, (a - 1) as nat);
    }
}

/// The lattices of the octaves of a fractal layer, first to last.
pub fn fractal_octaves(seed: u32, base: u32, octaves: u32, ax: u32, ay: u32) -> (r: Vec<(u32, u32, u32)>)
    requires
        fractal_fits(base, octaves, ax, ay),
    ensures
        r@.len() == octaves,
        forall|o: int| 0 <= o < octaves ==> #[trigger] r@[o] == octave_spec(seed, base, ax, ay, o as u32),
{
    let mut r: Vec<(u32, u32, u32)> = Vec::new();
    proof {
        lemma_pow2_mono(0, octaves as nat);
        assert(base * ax <= base * ax * pow2(octaves as nat)) by (nonlinear_arith)
            requires
                pow2(octaves as nat) >= 1,
        ;
        assert(base * ay <= base * ay * pow2(octaves as nat)) by (nonlinear_arith)
            requires
                pow2(octaves as nat) >= 1,
        ;
    }
    let mut wx: u32 = base * ax;
    let mut wy: u32 = base * ay;
    let mut o: u32 = 0;
    proof {
        assert(pow2(0) == 1);
        assert(base * ax * pow2(0) == base * ax && base * ay * pow2(0) == base * ay) by (nonlinear_arith)
            requires
                pow2(0) == 1,
        ;
    }
    while o < octaves
        invariant
            fractal_fits(base, octaves, ax, ay),
            o <= octaves,
            wx == base * ax * pow2(o as nat),
            wy == base * ay * pow2(o as nat),
            r@.len() == o,
            forall|p: int| 0 <= p < o ==> #[trigger] r@[p] == octave_spec(seed, base, ax, ay, p as u32),
        decreases octaves - o,
    {
        let s: u32 = seed.wrapping_add(o.wrapping_mul(7919));
        r.push((s, wx, wy));
        proof {
            lemma_pow2_mono((o + 1) as nat, octaves as nat);
            assert(base * ax * pow2((o + 1) as nat) == 2 * (base * ax * pow2(o as nat))) by (nonlinear_arith)
                requires
                    pow2((o + 1) as nat) == 2 * pow2(o as nat),
            ;
            assert(base * ay * pow2((o + 1) as nat) == 2 * (base * ay * pow2(o as nat))) by (nonlinear_arith)
                requires
                    pow2((o + 1) as nat) == 2 * pow2(o as nat),
            ;
            assert(base * ax * pow2((o + 1) as nat) <= base * ax * pow2(octaves as nat)) by (nonlinear_arith)
                requires
                    pow2((o + 1) as nat) <= pow2(octaves as nat),
            ;
            assert(base * ay * pow2((o + 1) as nat) <= base * ay * pow2(octaves as nat)) by (nonlinear_arith)
                requires
                    pow2((o + 1) as nat) <= pow2(octaves as nat),
            ;
        }
        wx = wx * 2;
        wy = wy * 2;
        o = o + 1;
    }
    r
}

/// A layer the generator can evaluate: every lattice has cells in both
/// directions, and a fractal layer has an octave and fits in 32 bits.
pub open spec fn layer_well_formed(l: NoiseLayer) -> bool {
    match l {
        NoiseLayer::Lattice { wx, wy, .. } => wx > 0 && wy > 0,
        NoiseLayer::Fractal { base, octaves, ax, ay, .. } => base * ax > 0 && base * ay > 0 && octaves
            > 0 && fractal_fits(base, octaves, ax, ay),
    }
}

/// Sum of the weights of the layers.
pub open spec fn weight_sum(ls: Seq<WeightedLayer>) -> int
    decreases ls.len(),
{
    if ls.len() == 0 {
        0
    } else {
        weight_sum(ls.drop_last()) + ls.last().weight
    }
}

/// Every preset can be evaluated: its layers are well formed and their
/// weights add up to one whole, so the noise value is a weighted mean of
/// values in [0, 1); its mean colour is a colour and its spread at most the
/// mean.  The opacity layer is well formed too.
pub proof fn lemma_recipes_well_formed(kind: TextureKind)
    ensures
        weight_sum(recipe_spec(kind).layers) == 100,
        forall|i: int|
            0 <= i < recipe_spec(kind).layers.len() ==> layer_well_formed(
                #[trigger] recipe_spec(kind).layers[i].layer,
            ),
        recipe_spec(kind).mean_rgb.0 <= 255,
        recipe_spec(kind).mean_rgb.1 <= 255,
        recipe_spec(kind).mean_rgb.2 <= 255,
        recipe_spec(kind).spread <= 100,
        layer_well_formed(density_layer_spec()),
{
    reveal_with_fuel(weight_sum, 4);
    reveal_with_fuel(pow2, 5);
    let ls = recipe_spec(kind).layers;
    assert(weight_sum(ls) == 100) by {
        assert(ls.drop_last().drop_last().drop_last().len() == 0 || ls.len() == 2);
        if ls.len() == 2 {
            assert(ls.drop_last().drop_last().len() == 0);
        }
    }
    assert(pow2(2) == 4 && pow2(3) == 8 && pow2(4) == 16);
    assert forall|i: int| 0 <= i < ls.len() implies layer_well_formed(#[trigger] ls[i].layer) by {
        let l = ls[i].layer;
        match l {
            NoiseLayer::Lattice { .. } => {},
            NoiseLayer::Fractal { base, octaves, ax, ay, .. } => {
                assert(ax == 1 && ay == 1);
                assert(base <= 16 && 2 <= octaves <= 4);
                assert(pow2(octaves as nat) <= 16);
                assert(base * ax * pow2(octaves as nat) <= 256 && base * ax > 0) by (nonlinear_arith)
                    requires
                        ax == 1,
                        1 <= base <= 16,
                        pow2(octaves as nat) <= 16,
                ;
            },
        }
    }
    assert(8 * 1 * pow2(2) <= u32::MAX);
}

/// The character of each preset, as its description gives it.
/// Sunbaked Parchment is warm amber (red above green above blue) and has the
/// strongest mottling (largest spread); its grain is 4-pixel clumps (a
/// lattice of `TILE / 4` cells).  Vellum Mist is a neutral grey and the
/// softest (smallest spread).  Classic Matte and Whisper Weave stay near a
/// neutral grey, at most faintly warm (red at least green at least blue,
/// within six levels).  Classic Matte's main grain is fibre clumps of 2 to 3
/// pixels.  Whisper Weave's two fibre layers are warp and weft: equal
/// weights, lattices stretched across and down, each the other transposed.
pub proof fn lemma_preset_character()
    ensures
        ({
            let p = recipe_spec(TextureKind::Parchment);
            let (r, g, b) = p.mean_rgb;
            &&& r > g > b
            &&& p.layers[0].layer matches NoiseLayer::Lattice { wx, wy, .. } && 4 * wx == TILE
                && 4 * wy == TILE
        }),
        ({
            let (r, g, b) = recipe_spec(TextureKind::VellumMist).mean_rgb;
            r == g && g == b
        }),
        forall|k: TextureKind|
            k == TextureKind::ClassicMatte || k == TextureKind::WhisperWeave ==> {
                let (r, g, b) = (#[trigger] recipe_spec(k)).mean_rgb;
                r >= g >= b && r - b <= 6
            },
        forall|k: TextureKind|
            k != TextureKind::Parchment ==> (#[trigger] recipe_spec(k)).spread < recipe_spec(
                TextureKind::Parchment,
            ).spread,
        forall|k: TextureKind|
            k != TextureKind::VellumMist ==> (#[trigger] recipe_spec(k)).spread > recipe_spec(
                TextureKind::VellumMist,
            ).spread,
        recipe_spec(TextureKind::ClassicMatte).layers[0].layer matches NoiseLayer::Lattice {
            wx,
            wy,
            ..
        } && 2 * wx <= TILE <= 3 * wx && 2 * wy <= TILE <= 3 * wy,
        ({
            let w = recipe_spec(TextureKind::WhisperWeave).layers;
            &&& w[0].weight == w[1].weight
            &&& w[0].layer matches NoiseLayer::Lattice { wx: ax, wy: ay, .. }
            &&& w[1].layer matches NoiseLayer::Lattice { wx: bx, wy: by, .. }
            &&& ax == by && ay == bx && ax != ay
        }),
{
    assert forall|k: TextureKind|
        k != TextureKind::Parchment implies (#[trigger] recipe_spec(k)).spread < recipe_spec(
            TextureKind::Parchment,
        ).spread by {
        match k {
            TextureKind::ClassicMatte => {},
            TextureKind::WhisperWeave => {},
            TextureKind::Parchment => {},
            TextureKind::VellumMist => {},
        }
    }
    assert forall|k: TextureKind|
        k != TextureKind::VellumMist implies (#[trigger] recipe_spec(k)).spread > recipe_spec(
            TextureKind::VellumMist,
        ).spread by {
        match k {
            TextureKind::ClassicMatte => {},
            TextureKind::WhisperWeave => {},
            TextureKind::Parchment => {},
            TextureKind::VellumMist => {},
        }
    }
}

} // verus!
