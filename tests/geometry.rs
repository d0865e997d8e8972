use raycaster::caster::{
    cast_ray, correct_distance, floor_tex_coord, wall_slab, Ray, FIX, MAX_STEPS, RAY_STEP, TILE_SPAN, VOID_CELL,
};
use raycaster::maze::{clean_maze, extract_sprite_positions, Maze, SpritePosition};

fn grid(rows: &[&str]) -> Maze {
    rows.iter().map(|r| r.chars().collect()).collect()
}

fn east() -> Ray {
    Ray { dx: FIX, dy: 0 }
}

#[test]
fn clean_maze_clears_markers_only() {
    let mut m = grid(&["+-.+", "|. |", "+--+"]);
    clean_maze(&mut m);
    assert_eq!(m, grid(&["+- +", "|  |", "+--+"]));
}

#[test]
fn clean_maze_on_empty_map() {
    let mut m: Maze = Vec::new();
    clean_maze(&mut m);
    assert!(m.is_empty());
}

#[test]
fn sprite_positions_are_cell_centres_in_row_order() {
    let m = grid(&["+.+", "..+"]);
    let p = extract_sprite_positions(&m, 100);
    assert_eq!(
        p,
        vec![
            SpritePosition { x: 150 * FIX, y: 50 * FIX },
            SpritePosition { x: 50 * FIX, y: 150 * FIX },
            SpritePosition { x: 150 * FIX, y: 150 * FIX },
        ]
    );
}

#[test]
fn ray_stops_at_wall_at_known_distance() {
    // open corridor, wall cell from x = 300; camera at x = 50: wall at 250 units
    let m = grid(&["   #"]);
    let r = cast_ray(&m, 50 * FIX, 50 * FIX, east(), 100);
    assert!(r.wall);
    assert_eq!(r.impact, '#');
    assert_eq!(r.distance, 250 * FIX);
    assert!(r.distance >= 250 * FIX - RAY_STEP && r.distance <= 250 * FIX);
}

#[test]
fn ray_wall_distance_off_step_rounds_up_by_less_than_a_step() {
    // wall at 249.75 units: the first sample inside it is at 250
    let m = grid(&["   #"]);
    let r = cast_ray(&m, 50 * FIX + 256, 50 * FIX, east(), 100);
    assert_eq!(r.impact, '#');
    assert_eq!(r.distance, 250 * FIX);
}

#[test]
fn ray_hits_wall_face_across_x() {
    let m = grid(&["   #"]);
    let r = cast_ray(&m, 50 * FIX, 50 * FIX, east(), 100);
    // hit at x = 300 exactly (edge of the cell), y = 50 (mid cell)
    assert_eq!(r.hit_x, 300 * FIX * FIX);
    assert_eq!(r.hit_y, 50 * FIX * FIX);
    assert!(r.side);
}

#[test]
fn ray_leaving_the_map_reports_void() {
    let m = grid(&["   ", "   ", "   "]);
    let r = cast_ray(&m, 150 * FIX, 150 * FIX, east(), 100);
    assert!(!r.wall);
    assert_eq!(r.impact, VOID_CELL);
    assert_eq!(r.distance, 150 * FIX);
    assert!(!r.side);
}

#[test]
fn ray_leaving_toward_negative_coordinates_reports_void() {
    let m = grid(&["   ", "   ", "   "]);
    let r = cast_ray(&m, 50 * FIX, 50 * FIX, Ray { dx: -FIX, dy: 0 }, 100);
    assert!(!r.wall);
    assert_eq!(r.impact, VOID_CELL);
    assert_eq!(r.distance, 50 * FIX + RAY_STEP);
}

#[test]
fn ray_stops_at_distance_ceiling() {
    let row: String = std::iter::repeat(' ').take(3000).collect();
    let m = grid(&[row.as_str()]);
    let r = cast_ray(&m, 0, 0, east(), 1);
    assert!(!r.wall);
    assert_eq!(r.impact, VOID_CELL);
    assert_eq!(r.distance, (MAX_STEPS + 1) * RAY_STEP);
    assert_eq!(r.hit_x, MAX_STEPS * RAY_STEP * FIX);
}

#[test]
fn ray_that_starts_in_a_wall_stops_at_once() {
    let m = grid(&["#"]);
    let r = cast_ray(&m, 50 * FIX, 50 * FIX, east(), 100);
    assert!(r.wall);
    assert_eq!(r.distance, 0);
}

#[test]
fn central_ray_distance_is_not_corrected() {
    assert_eq!(correct_distance(256000, FIX), 256000);
    assert_eq!(correct_distance(0, FIX), 0);
}

#[test]
fn off_centre_ray_distance_is_shortened() {
    assert_eq!(correct_distance(2048, 512), 1024);
    assert_eq!(correct_distance(1000, 0), 0);
}

#[test]
fn wall_slab_formula() {
    // 100 units away on a 200-row screen: half height 81
    assert_eq!(wall_slab(200, 100 * FIX), (19, 181));
    // touching: the whole column
    assert_eq!(wall_slab(200, 0), (0, 200));
    // far: a thin slab about the horizon
    assert_eq!(wall_slab(200, 1_000_000 * FIX), (100, 100));
}

#[test]
fn wall_slab_is_symmetric_about_horizon() {
    for c in [50 * FIX, 120 * FIX, 400 * FIX, 1500 * FIX] {
        let (t, b) = wall_slab(300, c);
        assert_eq!(t + b, 300);
    }
}

#[test]
fn floor_texture_repeats_every_tile() {
    for p in [0i64, 1, 12345, 64 * FIX * FIX, -7, -(3 * TILE_SPAN) + 99] {
        assert_eq!(floor_tex_coord(p), floor_tex_coord(p + TILE_SPAN));
    }
}

#[test]
fn floor_texture_coordinate_values() {
    assert_eq!(floor_tex_coord(0), 0);
    assert_eq!(floor_tex_coord(TILE_SPAN / 2), FIX / 2);
    // negative coordinates wrap into [0, FIX)
    assert_eq!(floor_tex_coord(-TILE_SPAN / 4), 3 * FIX / 4);
}
