use cargo_dfu::error::UtilError;
use cargo_dfu::image::assemble_image;
use cargo_dfu::segment::Segment;

fn load(address: u64, offset: u64, size: u64) -> Segment {
    Segment { segment_type: 1, flags: 5, file_offset: offset, physical_address: address, file_size: size }
}

fn pattern(len: usize) -> Vec<u8> {
    (0..len).map(|i| (i % 251) as u8 + 1).collect()
}

#[test]
fn empty_segment_list_is_refused() {
    let file = pattern(64);
    assert_eq!(assemble_image(&[], &file), Err(UtilError::NoLoadableSegments));
}

#[test]
fn two_segments_are_joined_by_zeros() {
    let file = pattern(0x2010);
    let segments = [load(0x0800_0000, 0x1000, 16), load(0x0800_0020, 0x2000, 16)];
    let (image, base) = assemble_image(&segments, &file).unwrap();
    assert_eq!(base, 0x0800_0000);
    assert_eq!(image.len(), 48);
    assert_eq!(&image[0..16], &file[0x1000..0x1010]);
    assert!(image[16..32].iter().all(|b| *b == 0));
    assert_eq!(&image[32..48], &file[0x2000..0x2010]);
}

#[test]
fn single_segment_is_copied() {
    let file = pattern(0x1100);
    let (image, base) = assemble_image(&[load(0x0800_0000, 0x1000, 256)], &file).unwrap();
    assert_eq!(base, 0x0800_0000);
    assert_eq!(image, file[0x1000..0x1100].to_vec());
}

#[test]
fn backwards_segment_is_refused() {
    let file = pattern(64);
    let segments = [load(0x100, 0, 16), load(0x10f, 16, 16)];
    assert_eq!(
        assemble_image(&segments, &file),
        Err(UtilError::NegativeGap { index: 1, previous_end: 0x110, address: 0x10f })
    );
}

#[test]
fn image_of_exactly_32_bits_is_refused_before_it_is_built() {
    let file = pattern(64);
    let segments = [load(0, 0, 16), load(0xffff_fff0, 16, 16)];
    assert_eq!(
        assemble_image(&segments, &file),
        Err(UtilError::AddressOverflow { index: 1, address: 0xffff_fff0, size: 16 })
    );
    let wrapping = [load(u64::MAX - 3, 0, 16)];
    assert_eq!(
        assemble_image(&wrapping, &file),
        Err(UtilError::AddressOverflow { index: 0, address: u64::MAX - 3, size: 16 })
    );
}

#[test]
fn highest_image_that_fits() {
    let file = pattern(64);
    let segments = [load(0xffff_ff00, 0, 16), load(0xffff_ff20, 16, 0xdf)];
    let r = assemble_image(&segments, &pattern(0x100));
    let (image, base) = r.unwrap();
    assert_eq!(base, 0xffff_ff00);
    assert_eq!(image.len(), 0xff);
    assert!(assemble_image(&[load(0xffff_ffff, 0, 64)], &file).is_ok());
}

#[test]
fn data_outside_the_file_is_refused() {
    let file = pattern(64);
    assert_eq!(assemble_image(&[load(0, 60, 5)], &file), Err(UtilError::MalformedElf));
    assert_eq!(assemble_image(&[load(0, 65, 0)], &file), Err(UtilError::MalformedElf));
    assert_eq!(assemble_image(&[load(0, u64::MAX, 2)], &file), Err(UtilError::MalformedElf));
    assert_eq!(assemble_image(&[load(0, 60, 4)], &file).unwrap().0, file[60..64].to_vec());
}
