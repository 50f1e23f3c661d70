# Sue-Paper

A Windows tool that lays a procedurally generated paper texture over every
screen: a layered, click-through overlay window per monitor, four texture
presets, four intensities, a tray menu (switch, preset, intensity, snooze,
exclude the foreground application, quit), and settings kept in
`%APPDATA%/Sue-Paper/settings.json`.

## Layout

- `src/` — the verified library (Verus):
  - `texture.rs` — presets, lattice hash, lattice wrap-around, octave lattices;
  - `settings.rs` — the settings record, its normal form, loading, the save protocol;
  - `text.rs` — trimming, lower-casing and the byte order of names;
  - `control.rs` — the tray commands as a state machine with effects;
  - `menu.rs` — the tray menu;
  - `overlay.rs` — covering a window with copies of the texture block;
  - `icon.rs` — ICO parsing and the icon resources of an executable;
  - `preview.rs` — the preview tool's page, blending, crop and BMP encoding.
- `app/` — the Windows program around it: windows, GDI, tray, timers, files,
  JSON, and the single-precision noise evaluation.
- `tests/` — tests of the library.
