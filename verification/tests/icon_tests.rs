use budgy::icon::{generate_icon_data, IconError};

fn ico_bytes(images: &[(u32, u32, Vec<u8>)]) -> Vec<u8> {
    let mut dir = ico::IconDir::new(ico::ResourceType::Icon);
    for (w, h, rgba) in images {
        let image = ico::IconImage::from_rgba_data(*w, *h, rgba.clone());
        dir.add_entry(ico::IconDirEntry::encode(&image).unwrap());
    }
    let mut out = Vec::new();
    dir.write(&mut out).unwrap();
    out
}

#[test]
fn icon_is_the_first_image() {
    let first: Vec<u8> = (0..16).map(|i| (i * 10) as u8).collect();
    let second: Vec<u8> = vec![255; 4 * 3 * 3];
    let bytes = ico_bytes(&[(2, 2, first.clone()), (3, 3, second)]);
    let icon = generate_icon_data(&bytes).unwrap();
    assert_eq!(icon.width, 2);
    assert_eq!(icon.height, 2);
    assert_eq!(icon.rgba, first);
}

#[test]
fn icon_needs_an_image() {
    let bytes = ico_bytes(&[]);
    assert_eq!(generate_icon_data(&bytes), Err(IconError::NoImages));
}

#[test]
fn icon_needs_an_ico_file() {
    assert_eq!(generate_icon_data(b"not an icon"), Err(IconError::NotIco));
}

#[test]
fn icon_needs_a_decodable_first_image() {
    let mut bytes: Vec<u8> = vec![0, 0, 1, 0, 1, 0];
    bytes.extend_from_slice(&[2, 2, 0, 0, 1, 0, 32, 0]);
    bytes.extend_from_slice(&4u32.to_le_bytes());
    bytes.extend_from_slice(&22u32.to_le_bytes());
    bytes.extend_from_slice(&[1, 2, 3, 4]);
    assert_eq!(generate_icon_data(&bytes), Err(IconError::Undecodable));
}

fn palette_ico(colors_used: u32, pixels: [u8; 2]) -> Vec<u8> {
    let mut bmp: Vec<u8> = Vec::new();
    bmp.extend_from_slice(&40u32.to_le_bytes());
    bmp.extend_from_slice(&2i32.to_le_bytes());
    bmp.extend_from_slice(&2i32.to_le_bytes());
    bmp.extend_from_slice(&1u16.to_le_bytes());
    bmp.extend_from_slice(&8u16.to_le_bytes());
    bmp.extend_from_slice(&[0u8; 16]);
    bmp.extend_from_slice(&colors_used.to_le_bytes());
    bmp.extend_from_slice(&0u32.to_le_bytes());
    bmp.extend_from_slice(&[30, 20, 10, 0, 60, 50, 40, 0]);
    bmp.extend_from_slice(&[pixels[0], pixels[1], 0, 0]);
    bmp.extend_from_slice(&[0, 0, 0, 0]);
    let mut bytes: Vec<u8> = vec![0, 0, 1, 0, 1, 0];
    bytes.extend_from_slice(&[2, 1, 0, 0, 1, 0, 8, 0]);
    bytes.extend_from_slice(&(bmp.len() as u32).to_le_bytes());
    bytes.extend_from_slice(&22u32.to_le_bytes());
    bytes.extend_from_slice(&bmp);
    bytes
}

#[test]
fn icon_reads_a_palette_image() {
    let icon = generate_icon_data(&palette_ico(2, [1, 0])).unwrap();
    assert_eq!((icon.width, icon.height), (2, 1));
    assert_eq!(icon.rgba, vec![40, 50, 60, 255, 10, 20, 30, 255]);
}

#[test]
fn icon_refuses_a_pixel_beyond_the_palette() {
    assert_eq!(generate_icon_data(&palette_ico(2, [0, 5])), Err(IconError::PaletteOutOfRange));
}

#[test]
fn palette_check_finds_the_bad_pixel() {
    assert!(budgy::bmp::entry_palette_fits(&palette_ico(2, [1, 1]), 0));
    assert!(!budgy::bmp::entry_palette_fits(&palette_ico(2, [2, 1]), 0));
    assert!(budgy::bmp::entry_palette_fits(b"short", 0));
}
