use sue_paper::{group_icon_data, icon_resource_updates, parse_ico, read_u16, read_u32};
use sue_paper::{IconError, ResourceKind};

/// An icon file with one image per entry of `sizes`, image `i` filled with
/// the byte `i + 1`.
fn build_ico(sizes: &[usize]) -> Vec<u8> {
    let mut bytes = vec![0u8, 0, 1, 0];
    bytes.extend_from_slice(&(sizes.len() as u16).to_le_bytes());
    let mut offset = 6 + sizes.len() * 16;
    for (i, size) in sizes.iter().enumerate() {
        let side = (16 * (i + 1)) as u8;
        bytes.extend_from_slice(&[side, side, 0, 0, 1, 0, 32, 0]);
        bytes.extend_from_slice(&(*size as u32).to_le_bytes());
        bytes.extend_from_slice(&(offset as u32).to_le_bytes());
        offset += size;
    }
    for (i, size) in sizes.iter().enumerate() {
        bytes.extend(std::iter::repeat((i + 1) as u8).take(*size));
    }
    bytes
}

#[test]
fn parses_the_project_icon_and_builds_a_group_resource() {
    let frames = parse_ico(&build_ico(&[40, 120, 300, 700, 1100, 2000, 5000])).unwrap();
    assert_eq!(frames.len(), 7);
    assert!(frames.iter().all(|frame| !frame.data.is_empty()));
    assert_eq!(group_icon_data(&frames).len(), 6 + frames.len() * 14);
}

#[test]
fn reads_little_endian_fields() {
    let bytes = [0x34u8, 0x12, 0x78, 0x56];
    assert_eq!(read_u16(&bytes, 0), Some(0x1234));
    assert_eq!(read_u16(&bytes, 2), Some(0x5678));
    assert_eq!(read_u16(&bytes, 3), None);
    assert_eq!(read_u32(&bytes, 0), Some(0x5678_1234));
    assert_eq!(read_u32(&bytes, 1), None);
}

#[test]
fn parsed_frames_hold_their_bytes() {
    let frames = parse_ico(&build_ico(&[3, 2])).unwrap();
    assert_eq!(frames[0].directory_fields, [16, 16, 0, 0, 1, 0, 32, 0]);
    assert_eq!(frames[0].data, vec![1, 1, 1]);
    assert_eq!(frames[1].directory_fields, [32, 32, 0, 0, 1, 0, 32, 0]);
    assert_eq!(frames[1].data, vec![2, 2]);
}

#[test]
fn rejects_what_is_not_an_icon() {
    assert_eq!(parse_ico(&[]).err(), Some(IconError::NotAnIcon));
    assert_eq!(parse_ico(&[0, 0, 2, 0, 1, 0]).err(), Some(IconError::NotAnIcon));
    assert_eq!(parse_ico(&[0, 0, 1]).err(), Some(IconError::NotAnIcon));
}

#[test]
fn rejects_a_truncated_header() {
    assert_eq!(parse_ico(&[0, 0, 1, 0, 1]).err(), Some(IconError::TruncatedHeader));
}

#[test]
fn rejects_an_empty_or_cut_directory() {
    assert_eq!(parse_ico(&[0, 0, 1, 0, 0, 0]).err(), Some(IconError::NoCompleteEntries));
    let mut bytes = build_ico(&[4]);
    bytes.truncate(6 + 15);
    assert_eq!(parse_ico(&bytes).err(), Some(IconError::NoCompleteEntries));
}

#[test]
fn rejects_an_image_outside_the_file() {
    let mut bytes = build_ico(&[4, 4]);
    bytes.pop();
    assert_eq!(parse_ico(&bytes).err(), Some(IconError::FrameOutsideFile));
}

#[test]
fn reports_the_first_bad_image() {
    // Image 0 runs past the end; image 1's range overflows only on 32-bit
    // targets, so the first error is the one of image 0.
    let mut bytes = build_ico(&[4, 4]);
    bytes[6 + 8] = 0xFF;
    assert_eq!(parse_ico(&bytes).err(), Some(IconError::FrameOutsideFile));
}

#[test]
fn error_messages_are_the_tools_messages() {
    assert_eq!(IconError::NotAnIcon.message(), "not a Windows icon file");
    assert_eq!(IconError::FrameOutsideFile.message(), "icon frame lies outside the file");
}

#[test]
fn group_resource_names_each_image() {
    let frames = parse_ico(&build_ico(&[3, 258])).unwrap();
    let group = group_icon_data(&frames);
    assert_eq!(
        group,
        vec![
            0, 0, 1, 0, 2, 0, //
            16, 16, 0, 0, 1, 0, 32, 0, 3, 0, 0, 0, 1, 0, //
            32, 32, 0, 0, 1, 0, 32, 0, 2, 1, 0, 0, 2, 0,
        ]
    );
}

#[test]
fn resource_updates_list_images_then_group() {
    let frames = parse_ico(&build_ico(&[3, 2])).unwrap();
    let updates = icon_resource_updates(&frames);
    assert_eq!(updates.len(), 3);
    assert_eq!(updates[0].kind, ResourceKind::Icon);
    assert_eq!(updates[0].id, 1);
    assert_eq!(updates[0].data, vec![1, 1, 1]);
    assert_eq!(updates[1].kind, ResourceKind::Icon);
    assert_eq!(updates[1].id, 2);
    assert_eq!(updates[1].data, vec![2, 2]);
    assert_eq!(updates[2].kind, ResourceKind::GroupIcon);
    assert_eq!(updates[2].id, 1);
    assert_eq!(updates[2].data, group_icon_data(&frames));
}
