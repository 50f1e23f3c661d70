use sue_paper::{blit_extent, tile_fill, Rect, TextureError, TILE};

fn rect(left: i32, top: i32, right: i32, bottom: i32) -> Rect {
    Rect { left, top, right, bottom }
}

#[test]
fn rejects_a_malformed_texture_before_calling_gdi() {
    assert!(blit_extent(0, &rect(0, 0, 0, 0)).is_err());
}

#[test]
fn blit_extent_cases() {
    let n = TILE * TILE * 4;
    assert_eq!(blit_extent(n - 1, &rect(0, 0, 10, 10)), Err(TextureError::InvalidTileSize));
    assert_eq!(blit_extent(n, &rect(5, 5, 5, 10)), Ok(None));
    assert_eq!(blit_extent(n, &rect(0, 10, 10, 0)), Ok(None));
    assert_eq!(blit_extent(n, &rect(-1920, 0, 0, 1080)), Ok(Some((1920, 1080))));
}

#[test]
fn fill_repeats_the_block_in_both_directions() {
    let tile: Vec<u8> = (0..TILE * TILE * 4).map(|i| (i % 251) as u8).collect();
    let (w, h) = (TILE + 3, TILE + 2);
    let dst = tile_fill(&tile, w, h);
    assert_eq!(dst.len(), w * h * 4);
    for (x, y) in [(0, 0), (511, 1), (512, 0), (514, 513), (3, 512)] {
        for c in 0..4 {
            let got = dst[(y * w + x) * 4 + c];
            let want = tile[((y % TILE) * TILE + x % TILE) * 4 + c];
            assert_eq!(got, want);
        }
    }
}

#[test]
fn fill_of_an_empty_window_is_empty() {
    let tile = vec![7u8; TILE * TILE * 4];
    assert!(tile_fill(&tile, 0, 5).is_empty());
    assert!(tile_fill(&tile, 5, 0).is_empty());
}

#[test]
fn rect_size() {
    let r = rect(-10, 20, 30, 25);
    assert_eq!(r.width(), 40);
    assert_eq!(r.height(), 5);
}

use sue_paper::{RebuildJob, RebuildStep};

#[test]
fn rebuild_textures_every_new_overlay_before_the_swap() {
    let mut job = RebuildJob::new();
    assert_eq!(job.step(), RebuildStep::LocateModule);
    job.advance(true, 0);
    assert_eq!(job.step(), RebuildStep::SpawnOverlays);
    job.advance(true, 2);
    assert_eq!(job.step(), RebuildStep::PrepareOverlay(0));
    job.advance(true, 0);
    assert_eq!(job.step(), RebuildStep::PrepareOverlay(1));
    job.advance(true, 0);
    assert_eq!(job.step(), RebuildStep::SwapOverlays);
    job.advance(true, 0);
    assert_eq!(job.step(), RebuildStep::ApplyVisibility);
    job.advance(true, 0);
    assert_eq!(job.step(), RebuildStep::Finished);
}

#[test]
fn failed_preparation_keeps_the_old_overlays() {
    let mut job = RebuildJob::new();
    job.advance(true, 0);
    job.advance(true, 3);
    job.advance(true, 0);
    job.advance(false, 0);
    assert_eq!(job.step(), RebuildStep::DiscardNew);
    job.advance(true, 0);
    assert_eq!(job.step(), RebuildStep::Finished);
}

#[test]
fn rebuild_without_monitors_swaps_at_once() {
    let mut job = RebuildJob::new();
    job.advance(true, 0);
    job.advance(true, 0);
    assert_eq!(job.step(), RebuildStep::SwapOverlays);
    let mut failed = RebuildJob::new();
    failed.advance(false, 0);
    assert_eq!(failed.step(), RebuildStep::Finished);
}
