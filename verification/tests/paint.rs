use image::{ImageFormat, RgbaImage};
use oneko_desktop::paint::{blit, mix, unpack, Asset, AssetError, FRAME_BYTES};
use oneko_desktop::protocol::CatStyle;
use std::io::Cursor;

fn png_of(width: u32, height: u32, pixels: Vec<u8>) -> Vec<u8> {
    let picture = RgbaImage::from_raw(width, height, pixels).unwrap();
    let mut bytes = Cursor::new(Vec::new());
    picture.write_to(&mut bytes, ImageFormat::Png).unwrap();
    bytes.into_inner()
}

fn pattern(width: usize, height: usize) -> Vec<u8> {
    (0..width * height * 4).map(|i| (i * 31 % 251) as u8).collect()
}

#[test]
fn pictures_are_read_pixel_by_pixel() {
    let pixels = pattern(5, 3);
    let asset = Asset::load(&png_of(5, 3, pixels.clone())).unwrap();
    assert_eq!(asset.stride, 5);
    assert_eq!(asset.sheet, pixels);
}

#[test]
fn other_bytes_are_no_picture() {
    assert!(matches!(Asset::load(b"GIF89a"), Err(AssetError::Decode(_))));
    assert!(matches!(Asset::load(&[]), Err(AssetError::Decode(_))));
    let mut cut = png_of(5, 3, pattern(5, 3));
    cut.truncate(40);
    assert!(Asset::load(&cut).is_err());
}

#[test]
fn sheets_know_their_cells() {
    let asset = Asset { sheet: pattern(64, 64), stride: 64 };
    assert!(asset.has_cell((0, 0)));
    assert!(asset.has_cell((1, 1)));
    assert!(!asset.has_cell((2, 1)));
    assert!(!asset.has_cell((0, 2)));
    assert!(!asset.has_cell((usize::MAX, 0)));
    assert!(!asset.has_cell((0, usize::MAX)));
    let short = Asset { sheet: vec![0; 64 * 64 * 4 - 1], stride: 64 };
    assert!(!short.has_cell((1, 1)));
    assert!(!Asset { sheet: vec![], stride: 0 }.has_cell((0, 0)));
}

#[test]
fn colours_are_split_into_channels() {
    assert_eq!(unpack(0x12_34_56), [0x12, 0x34, 0x56]);
    assert_eq!(unpack(0xff12_3456), [0x12, 0x34, 0x56]);
    assert_eq!(unpack(0), [0, 0, 0]);
}

#[test]
fn colours_are_mixed_between_their_ends() {
    let a = [10, 200, 0];
    let b = [20, 100, 255];
    assert_eq!(mix(a, b, 0), a);
    assert_eq!(mix(a, b, 255), b);
    assert_eq!(mix(a, b, 128), [15, 149, 128]);
}

#[test]
fn cells_are_painted_in_the_colours_of_a_cat() {
    let asset = Asset { sheet: pattern(64, 64), stride: 64 };
    let style = CatStyle { body: 0x00f4_d7f7, outline: 0x0024_2424, opacity: 224 };
    let mut out = [0u8; FRAME_BYTES];
    assert!(asset.has_cell((1, 1)));
    blit(&asset, (1, 1), &style, &mut out);
    for y in 0..32usize {
        for x in 0..32usize {
            let si = ((32 + y) * 64 + 32 + x) * 4;
            let di = (y * 32 + x) * 4;
            let alpha = asset.sheet[si + 3] as u16 * 224 / 255;
            let t = asset.sheet[si] as u16;
            let channel = |outline: u16, body: u16| {
                ((outline * (255 - t) + body * t) / 255 * alpha / 255) as u8
            };
            assert_eq!(out[di], channel(0x24, 0xf7));
            assert_eq!(out[di + 1], channel(0x24, 0xd7));
            assert_eq!(out[di + 2], channel(0x24, 0xf4));
            assert_eq!(out[di + 3], alpha as u8);
            assert!(out[di] <= out[di + 3]);
        }
    }
}

#[test]
fn white_pixels_show_the_body_and_black_ones_the_outline() {
    let mut sheet = vec![0u8; 32 * 32 * 4];
    sheet[0..4].copy_from_slice(&[255, 255, 255, 255]);
    sheet[4..8].copy_from_slice(&[0, 0, 0, 255]);
    let asset = Asset { sheet, stride: 32 };
    let style = CatStyle { body: 0x01_02_03, outline: 0x0a_0b_0c, opacity: 255 };
    let mut out = [9u8; FRAME_BYTES];
    blit(&asset, (0, 0), &style, &mut out);
    assert_eq!(out[0..4], [3, 2, 1, 255]);
    assert_eq!(out[4..8], [0x0c, 0x0b, 0x0a, 255]);
    assert!(out[8..].iter().all(|b| *b == 0));
    blit(&asset, (0, 0), &CatStyle { opacity: 0, ..style }, &mut out);
    assert!(out.iter().all(|b| *b == 0));
}
