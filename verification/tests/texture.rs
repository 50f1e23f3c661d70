use sue_paper::{
    density_layer, fractal_octaves, lattice_cell, lattice_hash, recipe, NoiseLayer, TextureKind,
    DENSITY_BASE, DENSITY_SWING, KINDS, KIND_NAMES, TILE,
};

#[test]
fn lattice_hash_values() {
    assert_eq!(lattice_hash(0, 0, 0), 0);
    assert_eq!(lattice_hash(11, 3, 5), 16_563_283);
    assert_eq!(lattice_hash(67, 511, 0), 758_620);
    assert_eq!(lattice_hash(u32::MAX, u32::MAX, u32::MAX), 221_792);
}

#[test]
fn lattice_hash_is_deterministic_and_24_bit() {
    for seed in [0u32, 7, 0xDEAD_BEEF] {
        for x in 0..20u32 {
            let h = lattice_hash(seed, x, x * 31);
            assert_eq!(h, lattice_hash(seed, x, x * 31));
            assert!(h < 1 << 24);
        }
    }
}

#[test]
fn lattice_cells_wrap_around() {
    assert_eq!(lattice_cell(5, 8), (5, 6));
    assert_eq!(lattice_cell(7, 8), (7, 0));
    assert_eq!(lattice_cell(200, 200), (0, 1));
}

#[test]
fn recipe_weights_make_one_whole() {
    for kind in KINDS {
        let r = recipe(kind);
        assert_eq!(r.layers.iter().map(|l| l.weight).sum::<u32>(), 100);
    }
    let r = recipe(TextureKind::WhisperWeave);
    assert_eq!(r.layers[0].layer, NoiseLayer::Lattice { seed: 23, wx: 80, wy: 240 });
    assert_eq!(r.mean_rgb, (130, 128, 124));
    assert_eq!(r.spread, 50);
}

#[test]
fn octaves_double_and_reseed() {
    let o = fractal_octaves(13, 8, 3, 1, 1);
    assert_eq!(o, vec![(13, 8, 8), (13 + 7919, 16, 16), (13 + 2 * 7919, 32, 32)]);
    let w = fractal_octaves(u32::MAX, 4, 2, 1, 3);
    assert_eq!(w, vec![(u32::MAX, 4, 12), (7918, 8, 24)]);
}

#[test]
fn density_layer_is_the_opacity_fractal() {
    assert_eq!(density_layer(), NoiseLayer::Fractal { seed: 67, base: 8, octaves: 2, ax: 1, ay: 1 });
    assert_eq!((DENSITY_BASE, DENSITY_SWING), (85, 30));
}

#[test]
fn presets_and_names_line_up() {
    assert_eq!(KINDS.len(), KIND_NAMES.len());
    assert_eq!(KIND_NAMES[2], "Sunbaked Parchment 羊皮纸");
    assert_eq!(TILE, 512);
}
