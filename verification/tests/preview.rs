use sue_paper::{ascii_alnum_only, bmp_bytes, book_page, composite, zoom_crop, TILE};

#[test]
fn book_page_has_text_bands_and_margins() {
    let (w, h) = (100usize, 20usize);
    let page = book_page(w, h);
    assert_eq!(page.len(), w * h * 3);
    let at = |x: usize, y: usize| page[(y * w + x) * 3];
    assert_eq!(at(21, 3), 60);
    assert_eq!(at(20, 3), 250);
    assert_eq!(at(68, 3), 250);
    assert_eq!(at(21, 9), 250);
    assert_eq!(at(79, 8), 60);
    assert_eq!(at(80, 8), 250);
    assert_eq!(at(30, 2), 250);
    assert_eq!(page[(3 * w + 21) * 3 + 2], 60);
}

#[test]
fn composite_blends_premultiplied_texture() {
    let mut tile = vec![0u8; TILE * TILE * 4];
    tile[0..4].copy_from_slice(&[10, 20, 30, 40]);
    let mut base = vec![250u8; 2 * 1 * 3];
    composite(&mut base, 2, 1, &tile);
    assert_eq!(&base[0..3], &[240, 230, 220]);
    assert_eq!(&base[3..6], &[250, 250, 250]);
}

#[test]
fn composite_truncates_a_colour_above_its_alpha() {
    let mut tile = vec![0u8; TILE * TILE * 4];
    tile[0..4].copy_from_slice(&[0, 0, 200, 10]);
    let mut base = vec![100u8; 3];
    composite(&mut base, 1, 1, &tile);
    assert_eq!(base[0], 40);
}

#[test]
fn bmp_of_one_pixel() {
    let bytes = bmp_bytes(1, 1, &[1, 2, 3]);
    let mut want = vec![0x42, 0x4D, 58, 0, 0, 0, 0, 0, 0, 0, 54, 0, 0, 0, 40, 0, 0, 0, 1, 0, 0, 0, 1, 0, 0, 0, 1, 0, 24, 0];
    want.extend_from_slice(&[0; 24]);
    want.extend_from_slice(&[3, 2, 1, 0]);
    assert_eq!(bytes, want);
}

#[test]
fn bmp_rows_are_bottom_up_and_padded() {
    let rgb = [1, 2, 3, 4, 5, 6, 7, 8, 9, 10, 11, 12];
    let bytes = bmp_bytes(2, 2, &rgb);
    assert_eq!(bytes.len(), 54 + 8 * 2);
    assert_eq!(&bytes[54..62], &[9, 8, 7, 12, 11, 10, 0, 0]);
    assert_eq!(&bytes[62..70], &[3, 2, 1, 6, 5, 4, 0, 0]);
}

#[test]
fn zoom_crop_magnifies_by_nearest_neighbour() {
    // 4 by 2 page; pixel (x, y) has all channels 10 * y + x.
    let mut page = Vec::new();
    for y in 0..2u8 {
        for x in 0..4u8 {
            page.extend_from_slice(&[10 * y + x; 3]);
        }
    }
    let crop = zoom_crop(&page, 4, 1, 1, 2, 1, 2);
    assert_eq!(crop.len(), 4 * 2 * 3);
    let px: Vec<u8> = crop.chunks(3).map(|p| p[0]).collect();
    assert_eq!(px, [11, 11, 12, 12, 11, 11, 12, 12]);
}

#[test]
fn file_stem_keeps_ascii_letters_and_digits() {
    assert_eq!(ascii_alnum_only("Classic Matte 经典哑光"), "ClassicMatte");
    assert_eq!(ascii_alnum_only("Vellum Mist 薄纱雾面"), "VellumMist");
    assert_eq!(ascii_alnum_only(""), "");
}

#[test]
fn composite_leaves_bytes_past_the_image_alone() {
    let mut tile = vec![0u8; TILE * TILE * 4 + 8];
    tile[0..4].copy_from_slice(&[10, 20, 30, 40]);
    let mut base = vec![250u8; 3 + 2];
    composite(&mut base, 1, 1, &tile);
    assert_eq!(base, vec![240, 230, 220, 250, 250]);
}

#[test]
fn composite_needs_only_the_tile_pixels_it_reads() {
    // A 2 by 1 image reads tile pixels 0 and 1 only.
    let tile = [10u8, 20, 30, 40, 0, 0, 0, 0];
    let mut base = vec![250u8; 6];
    composite(&mut base, 2, 1, &tile);
    assert_eq!(base, vec![240, 230, 220, 250, 250, 250]);
}

#[test]
fn zoom_crop_may_read_across_a_row_end() {
    // 2 by 2 page; the crop starts at (1, 0) and is 2 pixels wide, so its
    // second pixel is the first pixel of the next row.
    let page = [0u8, 0, 0, 1, 1, 1, 10, 10, 10, 11, 11, 11];
    let crop = zoom_crop(&page, 2, 1, 0, 2, 1, 1);
    assert_eq!(crop, vec![1, 1, 1, 10, 10, 10]);
}
