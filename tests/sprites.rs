use raycaster::caster::{Camera, Ray, FIX};
use raycaster::frame::{Color, DepthBuffer, Framebuffer};
use raycaster::maze::SpritePosition;
use raycaster::sprites::{
    draw_sprite_quad, isqrt, project_sprite, sprite_draw_order, SpriteManager, SpriteQuad, BALL_FRAMES,
    FRAME_TEXELS,
};

fn manager_at(points: &[(i64, i64)]) -> SpriteManager {
    let mut m = SpriteManager::new();
    let pos: Vec<SpritePosition> = points.iter().map(|&(x, y)| SpritePosition { x, y }).collect();
    m.initialize_from_positions(&pos);
    m
}

#[test]
fn new_manager_is_empty() {
    let m = SpriteManager::new();
    assert_eq!(m.get_total_count(), 0);
    assert_eq!(m.get_collected_count(), 0);
    assert_eq!(m.animation.frame_duration, 1000);
}

#[test]
fn football_frames_blink_cycle() {
    let f = SpriteManager::create_football_frames();
    assert_eq!(f.len(), BALL_FRAMES);
    assert!(f.iter().all(|fr| fr.len() == FRAME_TEXELS));
    assert_eq!(f[0], f[2]);
    assert_eq!(f[0], f[4]);
    assert_eq!(f[1], f[5]);
    assert_ne!(f[0], f[1]);
    assert_ne!(f[0], f[3]);
    // corner transparent, body inside, seam on row 16
    assert_eq!(f[0][0].a, 0);
    assert_eq!(f[0][13 * 32 + 16], Color::new(100, 50, 15, 255));
    assert_eq!(f[0][16 * 32 + 10], Color::new(200, 200, 200, 255));
    assert_eq!(f[1][16 * 32 + 10], Color::new(255, 255, 255, 255));
    assert_eq!(f[3][13 * 32 + 16], Color::new(60, 30, 8, 255));
    // rim: outside the ellipse but within 1.2 of it (dx = -16, dy = 0)
    assert_eq!(f[0][16 * 32], Color::new(70, 35, 10, 255));
}

#[test]
fn initialize_places_one_ball_per_position() {
    let m = manager_at(&[(1000, 2000), (3000, 4000)]);
    assert_eq!(m.get_total_count(), 2);
    assert_eq!(m.sprites[1].x, 3000);
    assert_eq!(m.sprites[1].y, 4000);
    assert_eq!(m.sprites[0].animation_frame, 0);
    assert!(!m.sprites[0].collected);
    assert_eq!(m.sprites[0].scale, 50);
}

#[test]
fn update_advances_frames_cyclically() {
    let mut m = manager_at(&[(0, 0)]);
    m.update(400);
    assert_eq!(m.sprites[0].animation_frame, 0);
    assert_eq!(m.sprites[0].animation_timer, 400);
    m.update(600);
    assert_eq!(m.sprites[0].animation_frame, 1);
    assert_eq!(m.sprites[0].animation_timer, 0);
    for _ in 0..5 {
        m.update(1000);
    }
    assert_eq!(m.sprites[0].animation_frame, 0);
    m.update(u64::MAX);
    assert_eq!(m.sprites[0].animation_frame, 1);
}

#[test]
fn collision_marks_first_near_sprite() {
    let mut m = manager_at(&[(100 * FIX, 0), (10 * FIX, 0), (20 * FIX, 0)]);
    assert_eq!(m.check_collision(0, 0, 30 * FIX as u64), Some(1));
    assert!(m.sprites[1].collected);
    assert_eq!(m.get_collected_count(), 1);
    assert_eq!(m.check_collision(0, 0, 30 * FIX as u64), Some(2));
    assert_eq!(m.check_collision(0, 0, 30 * FIX as u64), None);
    assert_eq!(m.get_collected_count(), 2);
}

#[test]
fn collected_sprite_never_triggers_again() {
    let mut m = manager_at(&[(10 * FIX, 0)]);
    assert_eq!(m.check_collision(0, 0, 30 * FIX as u64), Some(0));
    assert_eq!(m.check_collision(0, 0, 30 * FIX as u64), None);
    assert_eq!(m.check_collision(10 * FIX, 0, 30 * FIX as u64), None);
    assert!(m.sprites[0].collected);
    let frame = m.sprites[0].animation_frame;
    m.update(5000);
    assert_eq!(m.sprites[0].animation_frame, frame);
}

#[test]
fn collision_needs_strictly_closer_than_reach() {
    let mut m = manager_at(&[(30 * FIX, 0)]);
    assert_eq!(m.check_collision(0, 0, 30 * FIX as u64), None);
    assert_eq!(m.check_collision(1, 0, 30 * FIX as u64), Some(0));
}

#[test]
fn integer_square_roots() {
    assert_eq!(isqrt(0), 0);
    assert_eq!(isqrt(1), 1);
    assert_eq!(isqrt(15), 3);
    assert_eq!(isqrt(16), 4);
    assert_eq!(isqrt(1 << 40), 1 << 20);
    assert_eq!(isqrt((1 << 40) - 1), (1 << 20) - 1);
}

#[test]
fn projection_culls_behind_near_and_far() {
    let east = Ray { dx: FIX, dy: 0 };
    assert!(project_sprite(0, 0, east, -100 * FIX, 0, 50, 100, 100).is_none());
    assert!(project_sprite(0, 0, east, 10 * FIX, 0, 50, 100, 100).is_none());
    assert!(project_sprite(0, 0, east, 900 * FIX, 0, 50, 100, 100).is_none());
    assert!(project_sprite(0, 0, east, 100 * FIX, 0, 5000, 100, 100).is_none());
}

#[test]
fn projection_of_sprite_ahead() {
    let east = Ray { dx: FIX, dy: 0 };
    let q = project_sprite(0, 0, east, 100 * FIX, 0, 50, 100, 100).unwrap();
    // half height 100 * 12 / 100 = 12, half width 100 * 48 / 500 = 9
    assert_eq!(q, SpriteQuad { start_x: 41, end_x: 59, start_y: 38, end_y: 62, depth: 100 * FIX as u64 });
}

#[test]
fn draw_order_is_far_to_near_without_collected() {
    let mut m = manager_at(&[(50 * FIX, 0), (200 * FIX, 0), (100 * FIX, 0), (0, 200 * FIX)]);
    assert_eq!(sprite_draw_order(0, 0, &m.sprites), vec![1, 3, 2, 0]);
    m.sprites[1].collected = true;
    assert_eq!(sprite_draw_order(0, 0, &m.sprites), vec![3, 2, 0]);
}

fn opaque_frame(c: Color) -> Vec<Color> {
    vec![c; FRAME_TEXELS]
}

#[test]
fn sprite_behind_wall_is_hidden_and_in_front_is_drawn() {
    let bg = Color::new(1, 1, 1, 255);
    let red = Color::new(255, 0, 0, 255);
    let mut z = DepthBuffer::new(4, 4);
    for d in z.depths.iter_mut() {
        *d = 100 * FIX as u64;
    }
    let frame = opaque_frame(red);

    let mut fb = Framebuffer::new(4, 4, bg);
    let far = SpriteQuad { start_x: 0, end_x: 4, start_y: 0, end_y: 4, depth: 150 * FIX as u64 };
    draw_sprite_quad(&mut fb, &z, &frame, far);
    assert!(fb.pixels.iter().all(|&p| p == bg));

    let near = SpriteQuad { depth: 50 * FIX as u64, ..far };
    draw_sprite_quad(&mut fb, &z, &frame, near);
    assert!(fb.pixels.iter().all(|&p| p == red));
}

#[test]
fn sprite_at_equal_depth_is_hidden() {
    let bg = Color::new(1, 1, 1, 255);
    let mut z = DepthBuffer::new(2, 2);
    for d in z.depths.iter_mut() {
        *d = 7;
    }
    let mut fb = Framebuffer::new(2, 2, bg);
    let q = SpriteQuad { start_x: 0, end_x: 2, start_y: 0, end_y: 2, depth: 7 };
    draw_sprite_quad(&mut fb, &z, &opaque_frame(Color::new(9, 9, 9, 255)), q);
    assert!(fb.pixels.iter().all(|&p| p == bg));
}

#[test]
fn transparent_texels_and_clipped_quads() {
    let bg = Color::new(1, 1, 1, 255);
    let z = DepthBuffer::new(4, 4);
    let mut fb = Framebuffer::new(4, 4, bg);
    // half transparent frame: left half of every row invisible
    let mut frame = vec![Color::new(0, 0, 0, 0); FRAME_TEXELS];
    for y in 0..32 {
        for x in 16..32 {
            frame[y * 32 + x] = Color::new(5, 6, 7, 255);
        }
    }
    // quad hangs off the left edge: columns -4..4
    let q = SpriteQuad { start_x: -4, end_x: 4, start_y: 0, end_y: 1, depth: 1 };
    draw_sprite_quad(&mut fb, &z, &frame, q);
    assert_eq!(fb.pixels[0], Color::new(5, 6, 7, 255));
    assert_eq!(fb.pixels[3], Color::new(5, 6, 7, 255));
    assert_eq!(fb.pixels[4], bg);
}

#[test]
fn quad_depth_test_uses_each_pixel() {
    let bg = Color::new(1, 1, 1, 255);
    let mut z = DepthBuffer::new(3, 1);
    z.depths[1] = 10;
    let mut fb = Framebuffer::new(3, 1, bg);
    let q = SpriteQuad { start_x: 0, end_x: 3, start_y: 0, end_y: 1, depth: 20 };
    draw_sprite_quad(&mut fb, &z, &opaque_frame(Color::new(8, 8, 8, 255)), q);
    assert_eq!(fb.pixels, vec![Color::new(8, 8, 8, 255), bg, Color::new(8, 8, 8, 255)]);
}

#[test]
fn camera_is_plain_data() {
    let c = Camera { x: 1, y: 2, dir: Ray { dx: 0, dy: FIX } };
    assert_eq!(c.dir.dy, FIX);
}
