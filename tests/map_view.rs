use raycaster::caster::{render_world, trace_ray, Camera, ColumnRay, Ray, FIX};
use raycaster::frame::{Color, Framebuffer};
use raycaster::map_view::{cell_to_color, render_maze};
use raycaster::maze::{maze_cell, Maze, SpritePosition};
use raycaster::sprites::SpriteManager;

fn grid(rows: &[&str]) -> Maze {
    rows.iter().map(|r| r.chars().collect()).collect()
}

fn bg() -> Color {
    Color::new(0, 0, 0, 255)
}

#[test]
fn cell_colors() {
    assert_eq!(cell_to_color('+'), Color::new(139, 69, 19, 255));
    assert_eq!(cell_to_color('|'), Color::new(139, 69, 19, 255));
    assert_eq!(cell_to_color('g'), Color::new(0, 128, 0, 255));
    assert_eq!(cell_to_color('2'), Color::new(105, 105, 105, 255));
    assert_eq!(cell_to_color('3'), Color::new(255, 215, 0, 255));
    assert_eq!(cell_to_color('z'), Color::new(34, 139, 34, 255));
}

#[test]
fn maze_cell_lookup() {
    let m = grid(&["+ ", " g"]);
    assert_eq!(maze_cell(&m, 0, 0), Some('+'));
    assert_eq!(maze_cell(&m, 1, 1), Some('g'));
    assert_eq!(maze_cell(&m, 2, 0), None);
    assert_eq!(maze_cell(&m, 0, 2), None);
}

#[test]
fn render_maze_fills_wall_blocks() {
    let m = grid(&["+ ", " g"]);
    let mut fb = Framebuffer::new(5, 5, bg());
    render_maze(&mut fb, &m, 2);
    let at = |x: usize, y: usize| fb.pixels[y * 5 + x];
    assert_eq!(at(0, 0), Color::new(139, 69, 19, 255));
    assert_eq!(at(1, 1), Color::new(139, 69, 19, 255));
    assert_eq!(at(2, 0), bg());
    assert_eq!(at(3, 3), Color::new(0, 128, 0, 255));
    assert_eq!(at(4, 4), bg());
}

#[test]
fn trace_ray_marks_open_samples() {
    let m = grid(&["   #"]);
    let mut fb = Framebuffer::new(400, 2, bg());
    fb.set_current_color(Color::white());
    trace_ray(&mut fb, &m, 50 * FIX, FIX, Ray { dx: FIX, dy: 0 }, 100);
    let row = &fb.pixels[400..800];
    assert_eq!(row[50], Color::white());
    assert_eq!(row[299], Color::white());
    assert_eq!(row[49], bg());
    assert_eq!(row[300], bg());
    assert!(fb.pixels[..400].iter().all(|&p| p == bg()));
}

#[test]
fn untextured_world_column() {
    let m = grid(&["   #"]);
    let cam = Camera { x: 50 * FIX, y: 50 * FIX, dir: Ray { dx: FIX, dy: 0 } };
    let cols = vec![ColumnRay { ray: cam.dir, cos_offset: FIX }];
    let mut fb = Framebuffer::new(1, 100, bg());
    render_world(&mut fb, &m, 100, &cam, &cols);
    // wall 250 units away: half height 35 * 100 / 500 = 7
    let wall = Color::new(245, 245, 245, 255);
    assert_eq!(fb.pixels[42], Color::sky_blue());
    assert_eq!(fb.pixels[43], wall);
    assert_eq!(fb.pixels[56], wall);
    assert_eq!(fb.pixels[57], Color::new(0, 117, 44, 255));
}

#[test]
fn minimap_sprite_dots() {
    let mut sm = SpriteManager::new();
    sm.initialize_from_positions(&vec![
        SpritePosition { x: 0, y: 0 },
        SpritePosition { x: 750 * FIX, y: 550 * FIX },
    ]);
    sm.sprites[1].collected = true;
    let mut fb = Framebuffer::new(60, 40, bg());
    // minimap of 30 pixels at columns 20..50, rows 10..40
    sm.render_minimap_sprites(&mut fb, 30, 100);
    let at = |x: usize, y: usize| fb.pixels[y * 60 + x];
    assert_eq!(at(20, 10), Color::gold());
    assert_eq!(at(24, 10), Color::gold());
    assert_eq!(at(20, 14), Color::gold());
    assert_eq!(at(23, 13), bg());
    assert_eq!(at(16, 10), Color::gold());
    assert_eq!(at(20, 6), Color::gold());
    assert_eq!(at(25, 10), bg());
    assert_eq!(at(35, 31), bg());
}
