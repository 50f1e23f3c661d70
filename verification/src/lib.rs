//! Sue-Paper: a paper-texture overlay for the whole screen.
//!
//! This crate holds the verified core of the tool: the texture presets and
//! their lattice arithmetic, the settings record and its normal form, the
//! save protocol, the tray-command state machine, the tray menu model, the
//! tiling of a texture block over a window, the icon-file parser used when the
//! icon is embedded into the executable, and the helpers of the preview tool.

pub mod control;
pub mod icon;
pub mod menu;
pub mod overlay;
pub mod preview;
pub mod settings;
pub mod text;
pub mod texture;

pub use control::{
    int_idx, overlay_should_be_visible, poll_interval_ms, tex_idx, AppState, AppView, Effect, ID_EXCLUDE, ID_EXIT,
    ID_INT_BASE, ID_SNOOZE_15, ID_SNOOZE_5, ID_TEX_BASE, ID_TOGGLE, INTENSITIES,
};
pub use icon::{
    group_icon_data, icon_resource_updates, parse_ico, read_u16, read_u32, IconError, IconFrame,
    ResourceKind, ResourceUpdate,
};
pub use menu::{tray_menu, MenuEntry, MenuItem};
pub use overlay::{blit_extent, tile_fill, Rect, RebuildJob, RebuildStep, TextureError};
pub use preview::{ascii_alnum_only, bmp_bytes, book_page, composite, zoom_crop};
pub use settings::{LoadOutcome, SaveJob, SaveStep, Settings, SettingsView};
pub use texture::{
    density_layer, fractal_octaves, lattice_cell, lattice_hash, recipe, NoiseLayer, Recipe, TextureKind,
    WeightedLayer, DENSITY_BASE, DENSITY_SWING, KINDS, KIND_NAMES, TILE,
};
