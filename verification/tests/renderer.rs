use raycaster::camera_view::{brightness, draw, scale_color, PlayerPose};
use raycaster::draw::{draw_line, draw_reference_points};
use raycaster::geometry::{rotate_point_around_origin, Point};
use raycaster::map::{Orientation, Shape, ShapeType, Side, WorldMap, LEVEL_HEIGHT};
use raycaster::raycast::{intersect, raycast};
use raycaster::renderer_init::render_init;

fn wall_shape(id: usize) -> Shape {
    Shape { id, shape_type: ShapeType::Wall, height: LEVEL_HEIGHT }
}

fn empty_map() -> WorldMap {
    WorldMap {
        id: 0,
        wall_sides: Vec::new(),
        wall_shapes: Vec::new(),
        block_sides: Vec::new(),
        block_shapes: Vec::new(),
        side_count: 0,
        shape_count: 0,
    }
}

/// A vertical wall segment at world x `x` spanning y in [-1, 1].
fn vertical_side(id: usize, x: i64) -> Side {
    Side::new(
        id,
        Point { x, y: -1000 },
        Point { x, y: 1000 },
        wall_shape(id),
    )
}

#[test]
fn test_intersect() {
    let ray_origin1 = Point { x: 50_000, y: 200_000 };
    let ray_origin2 = Point { x: 50_000, y: 400_000 };
    let ray_origin3 = Point { x: 150_000, y: 200_000 };
    let ray_origin4 = Point { x: 150_000, y: 400_000 };
    let side_point1 = Point { x: 100_000, y: 300_000 };
    let side_point2 = Point { x: 100_000, y: 100_000 };
    let side = Side::new(0, side_point1, side_point2, wall_shape(0));
    // the ray points along the angle pi: cosine -1, sine 0
    let intersects1 = intersect(ray_origin1, -1000, 0, &side);
    let intersects2 = intersect(ray_origin2, -1000, 0, &side);
    let intersects3 = intersect(ray_origin3, -1000, 0, &side);
    let intersects4 = intersect(ray_origin4, -1000, 0, &side);
    assert!(intersects1.is_none());
    assert!(intersects2.is_none());
    assert!(intersects3.is_some());
    assert!(intersects4.is_none());
}

#[test]
fn intersect_same_side_yields_no_hit() {
    // both endpoints strictly above the ray's carrier line
    let side = Side::new(
        0,
        Point { x: 5_000, y: 2_000 },
        Point { x: 9_000, y: 3_000 },
        wall_shape(0),
    );
    assert!(intersect(Point { x: 0, y: 0 }, 1000, 0, &side).is_none());
    // and strictly below it
    let side2 = Side::new(
        1,
        Point { x: 5_000, y: -2_000 },
        Point { x: 9_000, y: -3_000 },
        wall_shape(1),
    );
    assert!(intersect(Point { x: 0, y: 0 }, 1000, 0, &side2).is_none());
}

#[test]
fn intersect_behind_camera_yields_no_hit() {
    // the segment crosses the carrier line at x = -5: behind the origin
    let side = vertical_side(0, -5_000);
    assert!(intersect(Point { x: 0, y: 0 }, 1000, 0, &side).is_none());
}

#[test]
fn intersect_returns_crossing() {
    let side = vertical_side(0, 5_000);
    let hit = intersect(Point { x: 0, y: 0 }, 1000, 0, &side).unwrap();
    assert_eq!(hit.distance, 5_000);
    assert_eq!(hit.position.x, 5_000);
    assert_eq!(hit.position.y, 0);
    assert_eq!(hit.proportion_along_side, 500);
}

#[test]
fn round_trip_position_recovery() {
    // an oblique side and an axis-aligned unit ray direction
    let side = Side::new(
        0,
        Point { x: 7_000, y: -3_000 },
        Point { x: 4_000, y: 6_000 },
        wall_shape(0),
    );
    let origin = Point { x: 1_000, y: 500 };
    let (c, s) = (1000i64, 0i64);
    let hit = intersect(origin, c, s, &side).unwrap();
    // re-project: subtract the origin, rotate by the negated ray angle
    let rel = hit.position.sub(origin);
    let re = rotate_point_around_origin(rel, c, -s);
    assert!((re.x - hit.distance).abs() <= 2);
    assert!(re.y.abs() <= 2);
}

#[test]
fn nearest_wall_selection() {
    let mut map = empty_map();
    map.wall_sides.push(vertical_side(0, 5_000));
    map.wall_sides.push(vertical_side(1, 2_000));
    map.wall_sides.push(vertical_side(2, 8_000));
    let ms = raycast(&map, Point { x: 0, y: 0 }, 1000, 0);
    let wall = ms.wall_hit.unwrap();
    assert_eq!(wall.distance, 2_000);
    assert_eq!(wall.side.id, 1);
}

fn block_square(map: &mut WorldMap, id: usize, o: Orientation, x_near: i64, x_far: i64) {
    let shape = Shape { id, shape_type: ShapeType::Block(o), height: 10_000 };
    map.block_sides.push(Side::new(
        0,
        Point { x: x_near, y: -1_000 },
        Point { x: x_near, y: 1_000 },
        shape,
    ));
    map.block_sides.push(Side::new(
        1,
        Point { x: x_far, y: -1_000 },
        Point { x: x_far, y: 1_000 },
        shape,
    ));
}

#[test]
fn block_occlusion() {
    let mut map = empty_map();
    map.wall_sides.push(vertical_side(0, 2_000));
    // a block entirely behind the wall must not appear in any slice list
    block_square(&mut map, 1, Orientation::Bottom, 5_000, 7_000);
    let ms = raycast(&map, Point { x: 0, y: 0 }, 1000, 0);
    assert_eq!(ms.wall_hit.unwrap().distance, 2_000);
    assert!(ms.bottom_block_slices.is_empty());
    assert!(ms.top_block_slices.is_empty());
}

#[test]
fn slice_pairing() {
    let mut map = empty_map();
    map.wall_sides.push(vertical_side(0, 10_000));
    block_square(&mut map, 1, Orientation::Bottom, 4_000, 6_000);
    block_square(&mut map, 2, Orientation::Top, 3_000, 7_000);
    let ms = raycast(&map, Point { x: 0, y: 0 }, 1000, 0);
    assert_eq!(ms.bottom_block_slices.len(), 1);
    assert_eq!(ms.top_block_slices.len(), 1);
    let b = &ms.bottom_block_slices[0];
    assert!(b.entry_hit.distance <= b.exit_hit.distance);
    assert_eq!(b.entry_hit.distance, 4_000);
    assert_eq!(b.exit_hit.distance, 6_000);
    let t = &ms.top_block_slices[0];
    assert!(t.entry_hit.distance <= t.exit_hit.distance);
    assert_eq!(t.entry_hit.distance, 3_000);
    assert_eq!(t.exit_hit.distance, 7_000);
}

#[test]
fn concrete_scenario() {
    let map = WorldMap::new().unwrap();
    // player at (187.5, 225.0) looking along -pi/2: cosine 0, sine -1
    let position = Point { x: 187_500, y: 225_000 };
    let ms = raycast(&map, position, 0, -1000);
    let wall = ms.wall_hit.expect("the ray must terminate at a wall");
    assert!(wall.distance > 0);
    assert_eq!(wall.distance, 100_000);
}

#[test]
fn fov_derivation() {
    let screen_width = 800usize;
    let screen_height = 450usize;
    let horizontal_fov = std::f64::consts::PI / 2.0;
    let vertical_fov =
        2.0 * ((screen_height as f64 / screen_width as f64) * (horizontal_fov / 2.0).tan()).atan();
    let vertical_scale = (screen_height as f64 / 2.0) / (vertical_fov / 2.0).tan();
    let projection_plane = (screen_width as f64 / 2.0) / (horizontal_fov / 2.0).tan();
    assert!(vertical_fov < horizontal_fov);
    assert!(vertical_scale > 0.0);
    let mut column_cos = Vec::new();
    let mut column_sin = Vec::new();
    for x in 0..screen_width {
        let a = ((x as f64 - screen_width as f64 / 2.0) / projection_plane).atan();
        column_cos.push((a.cos() * 1000.0).round() as i64);
        column_sin.push((a.sin() * 1000.0).round() as i64);
    }
    let rd = render_init(
        screen_width,
        screen_height,
        (horizontal_fov * 1000.0) as i64,
        (vertical_fov * 1000.0) as i64,
        (vertical_scale * 1000.0) as i64,
        (projection_plane * 1000.0) as i64,
        0x222222,
        25,
        0x00ff00,
        0x0000ff,
        0x00ffff,
        LEVEL_HEIGHT,
        column_cos,
        column_sin,
    );
    assert!(rd.is_some());
    let rd = rd.unwrap();
    assert!(rd.vertical_fov < rd.horizontal_fov);
    assert!(rd.vertical_scale_coefficient > 0);
}

#[test]
fn render_init_rejects_bad_configuration() {
    // a column table whose length does not match the width is refused
    let rd = render_init(4, 4, 1571, 1000, 500_000, 2_000, 0, 25, 1, 2, 3, LEVEL_HEIGHT,
        vec![1000, 1000], vec![0, 0]);
    assert!(rd.is_none());
    // a zero screen dimension is refused
    let rd2 = render_init(0, 4, 1571, 1000, 500_000, 2_000, 0, 25, 1, 2, 3, LEVEL_HEIGHT,
        Vec::new(), Vec::new());
    assert!(rd2.is_none());
}

#[test]
fn brightness_clamp() {
    // near-zero distance drives the formula to its extreme: full brightness
    assert_eq!(brightness(1000, 0, 25_000), 1000);
    // a flat shading cosine leaves the neutral half brightness
    let far = brightness(0, 13_000_000_000, 1_000_000);
    assert_eq!(far, 500);
    let dark = brightness(0, 1, 1);
    assert!((200..=1000).contains(&dark));
    for &(c, d, k) in
        &[(0i64, 0i64, 0i64), (1000, 1, 1_000_000), (500, 13_000_000_000, 25), (0, 5, 0)]
    {
        let b = brightness(c, d, k);
        assert!((200..=1000).contains(&b), "brightness out of range");
    }
}

#[test]
fn scale_color_scales_channels() {
    // full brightness keeps the colour, half brightness halves each channel
    assert_eq!(scale_color(0xff80ff40, 1000), 0xff80ff40);
    assert_eq!(scale_color(0x00ff0000 | 0xff000000, 500), 0xff7f0000);
    // the alpha channel passes through unscaled
    assert_eq!(scale_color(0xff000000, 200), 0xff000000);
}

fn demo_renderer(width: usize, height: usize) -> raycaster::renderer_init::RendererData {
    let mut column_cos = Vec::new();
    let mut column_sin = Vec::new();
    let projection = (width as f64 / 2.0) / (std::f64::consts::PI / 4.0).tan();
    for x in 0..width {
        let a = ((x as f64 - width as f64 / 2.0) / projection).atan();
        column_cos.push((a.cos() * 1000.0).round() as i64);
        column_sin.push((a.sin() * 1000.0).round() as i64);
    }
    render_init(
        width,
        height,
        1571,
        1000,
        500_000,
        (projection * 1000.0) as i64,
        0x222222,
        25,
        0x00ff00,
        0x0000ff,
        0x00ffff,
        LEVEL_HEIGHT,
        column_cos,
        column_sin,
    )
    .unwrap()
}

#[test]
fn render_frame_idempotent() {
    let map = WorldMap::new().unwrap();
    let rd = demo_renderer(16, 12);
    let pose = PlayerPose {
        position: Point { x: 187_500, y: 225_000 },
        view_height: 0,
        cos_view_angle: 0,
        sin_view_angle: -1000,
    };
    let mut frame1 = vec![0u32; 16 * 12];
    let mut frame2 = vec![7u32; 16 * 12];
    draw(&mut frame1, &rd, &map, &pose);
    draw(&mut frame2, &rd, &map, &pose);
    assert_eq!(frame1, frame2);
}

#[test]
fn render_frame_paints_walls() {
    let map = WorldMap::new().unwrap();
    let rd = demo_renderer(16, 12);
    let pose = PlayerPose {
        position: Point { x: 187_500, y: 225_000 },
        view_height: 0,
        cos_view_angle: 0,
        sin_view_angle: -1000,
    };
    let mut frame = vec![0u32; 16 * 12];
    draw(&mut frame, &rd, &map, &pose);
    // something other than the background must have been painted
    assert!(frame.iter().any(|&px| px != 0x222222));
}

#[test]
fn add_shape_from_points_refuses_empty() {
    let mut map = empty_map();
    assert!(map.add_shape_from_points(Vec::new(), ShapeType::Wall, 1000).is_none());
    assert_eq!(map.side_count, 0);
    assert_eq!(map.shape_count, 0);
}

#[test]
fn add_shape_from_points_closes_the_loop() {
    let mut map = empty_map();
    let points = vec![
        Point { x: 0, y: 0 },
        Point { x: 10_000, y: 0 },
        Point { x: 10_000, y: 10_000 },
    ];
    assert!(map.add_shape_from_points(points, ShapeType::Wall, 2_000).is_some());
    assert_eq!(map.wall_sides.len(), 3);
    assert_eq!(map.wall_shapes.len(), 1);
    // side 0 runs from the last point back to the first
    assert_eq!(map.wall_sides[0].point1, Point { x: 10_000, y: 10_000 });
    assert_eq!(map.wall_sides[0].point2, Point { x: 0, y: 0 });
    assert_eq!(map.wall_sides[1].point1, Point { x: 0, y: 0 });
    assert_eq!(map.wall_sides[2].point2, Point { x: 10_000, y: 10_000 });
    // every side carries the one fresh shape
    assert!(map.wall_sides.iter().all(|s| s.shape.id == 0));
}

#[test]
fn demo_map_layout() {
    let map = WorldMap::new().unwrap();
    assert_eq!(map.wall_sides.len(), 10);
    assert_eq!(map.wall_shapes.len(), 1);
    assert_eq!(map.block_sides.len(), 6);
    assert_eq!(map.block_shapes.len(), 2);
    assert_eq!(map.side_count, 16);
    assert_eq!(map.shape_count, 3);
    assert_eq!(map.block_shapes[0].shape_type, ShapeType::Block(Orientation::Bottom));
    assert_eq!(map.block_shapes[1].shape_type, ShapeType::Block(Orientation::Top));
}

#[test]
fn side_shading_cosine() {
    // a horizontal edge (dy = 0) is parallel to the view plane: cosine 0
    let flat = Side::new(
        0,
        Point { x: 0, y: 5_000 },
        Point { x: 9_000, y: 5_000 },
        wall_shape(0),
    );
    assert_eq!(flat.cos_angle_in_world, 0);
    // a vertical edge (dx = 0) has slope angle 0: cosine 1
    let steep = Side::new(1, Point { x: 5_000, y: 0 }, Point { x: 5_000, y: 9_000 }, wall_shape(1));
    assert_eq!(steep.cos_angle_in_world, 1000);
}

#[test]
fn reference_points_grid() {
    let width = 60usize;
    let height = 60usize;
    let mut buffer = vec![1u32; width * height];
    draw_reference_points(&mut buffer, width, height);
    assert_eq!(buffer[0], 0xff0000);
    assert_eq!(buffer[50], 0xff0000);
    assert_eq!(buffer[50 * width], 0xff0000);
    assert_eq!(buffer[50 * width + 50], 0xff0000);
    assert_eq!(buffer[1], 1);
    assert_eq!(buffer[width], 1);
}

#[test]
fn line_drawing() {
    let width = 20usize;
    let height = 20usize;
    let mut buffer = vec![0u32; width * height];
    draw_line(&mut buffer, width, height, 2, 3, 2, 3, 0xabcdef);
    assert_eq!(buffer[3 * width + 2], 0xabcdef);
    let mut diag = vec![0u32; width * height];
    draw_line(&mut diag, width, height, 0, 0, 5, 5, 0x123456);
    assert_eq!(diag[0], 0x123456);
    for k in 0..=5usize {
        assert_eq!(diag[k * width + k], 0x123456);
    }
    // a line fully off screen leaves the buffer untouched
    let mut off = vec![9u32; width * height];
    draw_line(&mut off, width, height, 100, 100, 120, 140, 0x1);
    assert!(off.iter().all(|&px| px == 9));
}
