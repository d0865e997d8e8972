use raycaster::caster::{
    check_sprite_intersection, render_floor_pixel, render_world_with_textures,
    render_world_with_textures_and_sprites, Camera, ColumnRay, Ray, FIX,
};
use raycaster::frame::{Color, DepthBuffer, Framebuffer, DEPTH_INFINITE};
use raycaster::maze::{Maze, SpritePosition};
use raycaster::sprites::SpriteManager;
use raycaster::texture::{ImageTexture, TextureManager};

const WALL: [u8; 3] = [200, 100, 50];
const GRASS: [u8; 3] = [0, 200, 0];

fn grid(rows: &[&str]) -> Maze {
    rows.iter().map(|r| r.chars().collect()).collect()
}

fn solid(rgb: [u8; 3]) -> ImageTexture {
    ImageTexture::from_rgb(1, 1, &rgb.to_vec()).unwrap()
}

fn textures() -> TextureManager {
    TextureManager::new(solid(WALL), solid(GRASS))
}

fn diagonal_camera() -> Camera {
    Camera { x: 100 * FIX, y: 100 * FIX, dir: Ray { dx: 724, dy: 724 } }
}

fn one_column(c: &Camera) -> Vec<ColumnRay> {
    vec![ColumnRay { ray: c.dir, cos_offset: FIX }]
}

fn is_wall(c: Color) -> bool {
    c == Color::opaque(WALL) || c == Color::new(140, 70, 35, 255)
}

fn background() -> Color {
    Color::new(50, 50, 100, 255)
}

#[test]
fn end_to_end_single_wall_column() {
    let maze = grid(&["   ", " # ", "   "]);
    let cam = diagonal_camera();
    let cols = one_column(&cam);
    let mut fb = Framebuffer::new(1, 200, background());
    render_world_with_textures(&mut fb, &maze, 200, &cam, &cols, &textures());
    let rows: Vec<usize> = (0..200).filter(|&y| is_wall(fb.pixels[y])).collect();
    assert!(!rows.is_empty());
    let top = rows[0];
    let bottom = rows[rows.len() - 1] + 1;
    assert_eq!(rows.len(), bottom - top);
    assert_eq!(top + bottom, 200);
    assert_eq!((top, bottom), (43, 157));
    for y in 0..top {
        assert_eq!(fb.pixels[y], Color::sky_blue());
    }
    for y in bottom..200 {
        assert_eq!(fb.pixels[y].r, 0);
        assert!(fb.pixels[y].g >= 140 && fb.pixels[y].g <= 200);
    }
}

#[test]
fn end_to_end_without_sprites_draws_no_sprite_pixels() {
    let maze = grid(&["   ", " # ", "   "]);
    let cam = diagonal_camera();
    let cols = one_column(&cam);
    let mut plain = Framebuffer::new(1, 200, background());
    render_world_with_textures(&mut plain, &maze, 200, &cam, &cols, &textures());
    let mut with = Framebuffer::new(1, 200, background());
    let sm = SpriteManager::new();
    render_world_with_textures_and_sprites(&mut with, &maze, 200, &cam, &cols, &textures(), &sm, &vec![]);
    assert_eq!(plain.pixels, with.pixels);
}

#[test]
fn sprite_behind_wall_stays_hidden() {
    let maze = grid(&["   ", " # ", "   "]);
    let cam = diagonal_camera();
    let cols = one_column(&cam);
    let mut plain = Framebuffer::new(1, 200, background());
    render_world_with_textures(&mut plain, &maze, 200, &cam, &cols, &textures());
    let mut sm = SpriteManager::new();
    sm.initialize_from_positions(&vec![SpritePosition { x: 500 * FIX, y: 500 * FIX }]);
    let mut with = Framebuffer::new(1, 200, background());
    render_world_with_textures_and_sprites(&mut with, &maze, 200, &cam, &cols, &textures(), &sm, &vec![0]);
    assert_eq!(plain.pixels, with.pixels);
}

#[test]
fn sprite_in_front_of_wall_is_drawn() {
    let maze = grid(&["   ", " # ", "   "]);
    let cam = diagonal_camera();
    let cols = one_column(&cam);
    let mut sm = SpriteManager::new();
    sm.initialize_from_positions(&vec![SpritePosition { x: 130 * FIX, y: 130 * FIX }]);
    let mut fb = Framebuffer::new(1, 200, background());
    render_world_with_textures_and_sprites(&mut fb, &maze, 200, &cam, &cols, &textures(), &sm, &vec![0]);
    assert_eq!(fb.pixels[100], Color::new(200, 200, 200, 255));
    // collected sprites are not drawn
    sm.sprites[0].collected = true;
    let mut again = Framebuffer::new(1, 200, background());
    render_world_with_textures_and_sprites(&mut again, &maze, 200, &cam, &cols, &textures(), &sm, &vec![0]);
    assert!(is_wall(again.pixels[100]));
}

#[test]
fn open_space_column_shows_sky_and_floor_only() {
    let maze = grid(&["   ", "   ", "   "]);
    let cam = diagonal_camera();
    let cols = one_column(&cam);
    let mut fb = Framebuffer::new(1, 200, background());
    render_world_with_textures(&mut fb, &maze, 200, &cam, &cols, &textures());
    assert!(fb.pixels.iter().all(|&p| !is_wall(p)));
    assert_eq!(fb.pixels[0], Color::sky_blue());
    assert_eq!(fb.pixels[99], Color::sky_blue());
    // the horizon row keeps its old color
    assert_eq!(fb.pixels[100], background());
}

#[test]
fn floor_pixel_darkens_with_distance() {
    let cam = Camera { x: 0, y: 0, dir: Ray { dx: FIX, dy: 0 } };
    let tm = textures();
    let mut fb = Framebuffer::new(1, 200, background());
    // the last row is 32 * 200 / 199 units away: nearly full brightness
    render_floor_pixel(&mut fb, 0, 199, &cam, cam.dir, &tm);
    assert_eq!(fb.pixels[199], Color::new(0, 197, 0, 255));
    // the row just below the horizon is 3200 units away: darkest
    render_floor_pixel(&mut fb, 0, 101, &cam, cam.dir, &tm);
    assert_eq!(fb.pixels[101], Color::new(0, 140, 0, 255));
    // rows on or above the horizon are not touched
    render_floor_pixel(&mut fb, 0, 100, &cam, cam.dir, &tm);
    assert_eq!(fb.pixels[100], background());
}

#[test]
fn depth_buffer_starts_infinite() {
    let z = DepthBuffer::new(3, 2);
    assert_eq!(z.depths, vec![DEPTH_INFINITE; 6]);
}

#[test]
fn set_pixel_ignores_points_outside() {
    let mut fb = Framebuffer::new(2, 2, background());
    fb.set_current_color(Color::white());
    fb.set_pixel(5, 0);
    fb.set_pixel(1, 1);
    assert_eq!(fb.pixels[3], Color::white());
    assert_eq!(fb.pixels[0], background());
}

#[test]
fn ray_sprite_intersection_picks_nearest() {
    let cam = Camera { x: 0, y: 0, dir: Ray { dx: FIX, dy: 0 } };
    let mut sm = SpriteManager::new();
    sm.initialize_from_positions(&vec![
        SpritePosition { x: 300 * FIX, y: 0 },
        SpritePosition { x: 100 * FIX, y: 10 * FIX },
        SpritePosition { x: 50 * FIX, y: 40 * FIX },
    ]);
    let hit = check_sprite_intersection(&cam, cam.dir, 1000 * FIX, &sm).unwrap();
    assert_eq!(hit.sprite_index, 1);
    assert_eq!(hit.distance, 100 * FIX);
    assert_eq!(hit.hit_x, 100 * FIX * FIX);
    assert_eq!(hit.hit_y, 0);
    assert!(check_sprite_intersection(&cam, cam.dir, 50 * FIX, &sm).is_none());
    sm.sprites[1].collected = true;
    assert_eq!(check_sprite_intersection(&cam, cam.dir, 1000 * FIX, &sm).unwrap().sprite_index, 0);
}
