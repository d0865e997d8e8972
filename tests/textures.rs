use raycaster::caster::FIX;
use raycaster::texture::{ImageTexture, TextureManager};

fn two_by_two() -> ImageTexture {
    let bytes: Vec<u8> = vec![1, 2, 3, 4, 5, 6, 7, 8, 9, 10, 11, 12];
    ImageTexture::from_rgb(2, 2, &bytes).unwrap()
}

#[test]
fn from_rgb_reads_rows() {
    let t = two_by_two();
    assert_eq!(t.width, 2);
    assert_eq!(t.height, 2);
    assert_eq!(t.data[0][1], [4, 5, 6]);
    assert_eq!(t.data[1][0], [7, 8, 9]);
}

#[test]
fn from_rgb_rejects_bad_sizes() {
    assert!(ImageTexture::from_rgb(0, 2, &vec![]).is_none());
    assert!(ImageTexture::from_rgb(2, 2, &vec![0u8; 11]).is_none());
    assert!(ImageTexture::from_rgb(20000, 1, &vec![0u8; 60000]).is_none());
}

#[test]
fn get_color_picks_nearest_and_clamps() {
    let t = two_by_two();
    assert_eq!(t.get_color(0, 0), [1, 2, 3]);
    assert_eq!(t.get_color(FIX, 0), [4, 5, 6]);
    assert_eq!(t.get_color(FIX - 1, FIX - 1), [1, 2, 3]);
    assert_eq!(t.get_color(-500, 5 * FIX), [7, 8, 9]);
    assert_eq!(t.get_color(3 * FIX, 3 * FIX), [10, 11, 12]);
}

#[test]
fn fallback_is_a_chessboard() {
    let t = ImageTexture::fallback();
    assert_eq!(t.width, 64);
    assert_eq!(t.height, 64);
    assert_eq!(t.data[0][0], [255, 255, 0]);
    assert_eq!(t.data[0][8], [255, 0, 255]);
    assert_eq!(t.data[8][8], [255, 255, 0]);
    assert_eq!(t.data[63][0], [255, 0, 255]);
}

#[test]
fn texture_manager_lookups() {
    let tm = TextureManager::new(two_by_two(), ImageTexture::fallback());
    assert_eq!(tm.get_texture('+').width, 2);
    assert_eq!(tm.get_texture('x').data[1][1], [10, 11, 12]);
    assert_eq!(tm.get_grass_texture().width, 64);
}

#[test]
fn from_image_converts_to_rgb() {
    let gray = image::GrayImage::from_raw(2, 1, vec![10, 20]).unwrap();
    let t = ImageTexture::from_image(&image::DynamicImage::ImageLuma8(gray));
    assert_eq!(t.width, 2);
    assert_eq!(t.height, 1);
    assert_eq!(t.data[0], vec![[10, 10, 10], [20, 20, 20]]);
}

#[test]
fn from_image_keeps_rgb_pixels() {
    let rgb = image::RgbImage::from_raw(1, 2, vec![1, 2, 3, 4, 5, 6]).unwrap();
    let t = ImageTexture::from_image(&image::DynamicImage::ImageRgb8(rgb));
    assert_eq!(t.data, vec![vec![[1, 2, 3]], vec![[4, 5, 6]]]);
}

#[test]
fn from_image_of_empty_image_is_fallback() {
    let t = ImageTexture::from_image(&image::DynamicImage::new_rgb8(0, 0));
    assert_eq!(t.width, 64);
    assert_eq!(t.data[0][0], [255, 255, 0]);
}
