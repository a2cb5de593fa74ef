use chunk_lib::{ChunkCoordinates, GridError, Simulation};

fn grid() -> Simulation {
    Simulation::new(640, 480, 64, 48).unwrap()
}

#[test]
fn new_counts_whole_chunks() {
    let simul = grid();
    assert_eq!(simul.get_chunk_limits(), ChunkCoordinates::new(10, 10));
    assert_eq!(simul.canvas_w(), 640);
    assert_eq!(simul.canvas_h(), 480);
    assert_eq!(simul.chunk_w(), 64);
    assert_eq!(simul.chunk_h(), 48);
}

#[test]
fn new_starts_empty() {
    let simul = grid();
    for y in 0..10 {
        for x in 0..10 {
            assert_eq!(simul.get_chunk_entities(ChunkCoordinates::new(x, y)), Ok(vec![]));
        }
    }
}

#[test]
fn new_refuses_chunk_wider_than_canvas() {
    assert!(matches!(Simulation::new(100, 100, 200, 50), Err(GridError::Config)));
}

#[test]
fn new_refuses_chunk_taller_than_canvas() {
    assert!(matches!(Simulation::new(100, 100, 50, 101), Err(GridError::Config)));
}

#[test]
fn new_refuses_zero_dimensions() {
    assert!(matches!(Simulation::new(0, 480, 64, 48), Err(GridError::Config)));
    assert!(matches!(Simulation::new(640, 0, 64, 48), Err(GridError::Config)));
    assert!(matches!(Simulation::new(640, 480, 0, 48), Err(GridError::Config)));
    assert!(matches!(Simulation::new(640, 480, 64, 0), Err(GridError::Config)));
}

#[test]
fn new_accepts_one_chunk_as_large_as_the_canvas() {
    let simul = Simulation::new(64, 48, 64, 48).unwrap();
    assert_eq!(simul.get_chunk_limits(), ChunkCoordinates::new(1, 1));
    assert_eq!(simul.get_chunk_coords(2 * -1000, 2 * 1000), ChunkCoordinates::new(0, 0));
}

#[test]
fn new_drops_the_part_chunk_at_the_edge() {
    let simul = Simulation::new(100, 100, 30, 45).unwrap();
    assert_eq!(simul.get_chunk_limits(), ChunkCoordinates::new(3, 2));
}

#[test]
fn corners_and_centre_of_the_canvas() {
    let simul = grid();
    assert_eq!(simul.get_chunk_coords(2 * -320, 2 * -240), ChunkCoordinates::new(0, 0));
    assert_eq!(simul.get_chunk_coords(2 * 319, 2 * 239), ChunkCoordinates::new(9, 9));
    assert_eq!(simul.get_chunk_coords(2 * 0, 2 * 0), ChunkCoordinates::new(5, 5));
}

#[test]
fn chunk_borders() {
    let simul = grid();
    assert_eq!(simul.get_chunk_coords(2 * -257, 2 * -193), ChunkCoordinates::new(0, 0));
    assert_eq!(simul.get_chunk_coords(2 * -256 - 1, 2 * -192 - 1), ChunkCoordinates::new(0, 0));
    assert_eq!(simul.get_chunk_coords(2 * -256, 2 * -192), ChunkCoordinates::new(1, 1));
    assert_eq!(simul.get_chunk_coords(-1, -1), ChunkCoordinates::new(4, 4));
    assert_eq!(simul.get_chunk_coords(2 * 255 + 1, 2 * 191 + 1), ChunkCoordinates::new(8, 8));
    assert_eq!(simul.get_chunk_coords(2 * 256, 2 * 192), ChunkCoordinates::new(9, 9));
}

#[test]
fn positions_far_outside_are_clamped() {
    let simul = grid();
    assert_eq!(simul.get_chunk_coords(2 * 6400, 2 * 4800), ChunkCoordinates::new(9, 9));
    assert_eq!(simul.get_chunk_coords(2 * -6400, 2 * -4800), ChunkCoordinates::new(0, 0));
    assert_eq!(simul.get_chunk_coords(2 * -6400, 0), ChunkCoordinates::new(0, 5));
    assert_eq!(simul.get_chunk_coords(0, 2 * -4800), ChunkCoordinates::new(5, 0));
    assert_eq!(simul.get_chunk_coords(2 * 6400, 2 * -4800), ChunkCoordinates::new(9, 0));
    assert_eq!(simul.get_chunk_coords(2 * 320, 2 * 240), ChunkCoordinates::new(9, 9));
    assert_eq!(simul.get_chunk_coords(2 * -320 - 1, 2 * -240 - 1), ChunkCoordinates::new(0, 0));
}

#[test]
fn extreme_positions_are_clamped() {
    let simul = grid();
    assert_eq!(simul.get_chunk_coords(i64::MAX, i64::MIN), ChunkCoordinates::new(9, 0));
    assert_eq!(simul.get_chunk_coords(i64::MIN, i64::MAX), ChunkCoordinates::new(0, 9));
    let wide = Simulation::new(u32::MAX, u32::MAX, u32::MAX / 2, u32::MAX / 3).unwrap();
    assert_eq!(wide.get_chunk_limits(), ChunkCoordinates::new(2, 3));
    assert_eq!(wide.get_chunk_coords(i64::MAX, i64::MIN), ChunkCoordinates::new(1, 0));
    assert_eq!(wide.get_chunk_coords(0, 0), ChunkCoordinates::new(1, 1));
    assert_eq!(
        wide.get_global_coords(ChunkCoordinates::new(1, 2)),
        Ok((2 * 2147483647 - 4294967295 + 2147483647, 4 * 1431655765 - 4294967295 + 1431655765))
    );
    assert_eq!(wide.get_chunk_coords(2147483646, 2863311530), ChunkCoordinates::new(1, 2));
}

#[test]
fn positions_in_the_strip_beyond_the_last_chunk() {
    let simul = Simulation::new(100, 100, 30, 45).unwrap();
    assert_eq!(simul.get_chunk_coords(2 * 39, 2 * 39), ChunkCoordinates::new(2, 1));
    assert_eq!(simul.get_chunk_coords(2 * 40, 2 * 40), ChunkCoordinates::new(2, 1));
    assert_eq!(simul.get_chunk_coords(2 * 49 + 1, 2 * 49 + 1), ChunkCoordinates::new(2, 1));
    assert_eq!(simul.get_chunk_coords(2 * -50, 2 * -50), ChunkCoordinates::new(0, 0));
    assert_eq!(simul.get_chunk_coords(2 * -20 - 1, 2 * -5 - 1), ChunkCoordinates::new(0, 0));
    assert_eq!(simul.get_chunk_coords(2 * -20, 2 * -5), ChunkCoordinates::new(1, 1));
}

#[test]
fn odd_dimensions_are_not_rounded() {
    let simul = Simulation::new(5, 7, 2, 3).unwrap();
    assert_eq!(simul.get_chunk_limits(), ChunkCoordinates::new(2, 2));
    assert_eq!(simul.get_chunk_coords(-5, -7), ChunkCoordinates::new(0, 0));
    assert_eq!(simul.get_chunk_coords(-2, -2), ChunkCoordinates::new(0, 0));
    assert_eq!(simul.get_chunk_coords(-1, -1), ChunkCoordinates::new(1, 1));
    assert_eq!(simul.get_chunk_coords(0, 0), ChunkCoordinates::new(1, 1));
    assert_eq!(simul.get_chunk_coords(5, 7), ChunkCoordinates::new(1, 1));
    assert_eq!(simul.get_global_coords(ChunkCoordinates::new(0, 0)), Ok((-3, -4)));
    assert_eq!(simul.get_global_coords(ChunkCoordinates::new(1, 1)), Ok((1, 2)));
}

#[test]
fn half_a_unit_decides_on_a_canvas_of_odd_width() {
    let simul = Simulation::new(7, 7, 2, 2).unwrap();
    assert_eq!(simul.get_chunk_limits(), ChunkCoordinates::new(3, 3));
    assert_eq!(simul.get_chunk_coords(0, 0), ChunkCoordinates::new(1, 1));
    assert_eq!(simul.get_chunk_coords(1, 1), ChunkCoordinates::new(2, 2));
    assert_eq!(simul.get_chunk_coords(-3, -4), ChunkCoordinates::new(1, 0));
}

#[test]
fn centre_of_a_chunk() {
    let simul = grid();
    assert_eq!(simul.get_global_coords(ChunkCoordinates::new(0, 0)), Ok((2 * -288, 2 * -216)));
    assert_eq!(simul.get_global_coords(ChunkCoordinates::new(5, 5)), Ok((2 * 32, 2 * 24)));
    assert_eq!(simul.get_global_coords(ChunkCoordinates::new(9, 9)), Ok((2 * 288, 2 * 216)));
    assert_eq!(simul.get_global_coords(ChunkCoordinates::new(2, 3)), Ok((2 * -160, 2 * -72)));
}

#[test]
fn centre_of_a_chunk_of_odd_size() {
    let simul = Simulation::new(640, 480, 65, 49).unwrap();
    assert_eq!(simul.get_chunk_limits(), ChunkCoordinates::new(9, 9));
    assert_eq!(simul.get_global_coords(ChunkCoordinates::new(0, 0)), Ok((-575, -431)));
    assert_eq!(simul.get_global_coords(ChunkCoordinates::new(8, 8)), Ok((465, 353)));
}

#[test]
fn centre_of_a_chunk_one_unit_wide_is_inside_the_canvas() {
    let simul = Simulation::new(640, 480, 1, 1).unwrap();
    assert_eq!(simul.get_global_coords(ChunkCoordinates::new(0, 0)), Ok((-639, -479)));
    assert_eq!(simul.get_global_coords(ChunkCoordinates::new(639, 479)), Ok((639, 479)));
}

#[test]
fn centres_lie_strictly_inside_the_canvas() {
    for (canvas, chunk) in [(640u32, 64u32), (640, 65), (7, 2), (5, 5), (9, 1), (100, 30)] {
        let simul = Simulation::new(canvas, canvas, chunk, chunk).unwrap();
        let limits = simul.get_chunk_limits();
        for y in 0..limits.y {
            for x in 0..limits.x {
                let (cx, cy) = simul.get_global_coords(ChunkCoordinates::new(x, y)).unwrap();
                assert!(-(canvas as i64) < cx && cx < canvas as i64);
                assert!(-(canvas as i64) < cy && cy < canvas as i64);
            }
        }
    }
}

#[test]
fn centre_of_a_chunk_outside_the_grid() {
    let simul = grid();
    assert_eq!(simul.get_global_coords(ChunkCoordinates::new(10, 0)), Err(GridError::OutOfRange));
    assert_eq!(simul.get_global_coords(ChunkCoordinates::new(0, 10)), Err(GridError::OutOfRange));
    assert_eq!(
        simul.get_global_coords(ChunkCoordinates::new(usize::MAX, usize::MAX)),
        Err(GridError::OutOfRange)
    );
}

#[test]
fn centre_maps_back_to_its_chunk() {
    let simul = grid();
    for y in 0..10 {
        for x in 0..10 {
            let coords = ChunkCoordinates::new(x, y);
            let (cx, cy) = simul.get_global_coords(coords).unwrap();
            assert_eq!(simul.get_chunk_coords(cx, cy), coords);
        }
    }
}

#[test]
fn centre_maps_back_with_odd_dimensions() {
    let simul = Simulation::new(101, 77, 7, 5).unwrap();
    let limits = simul.get_chunk_limits();
    assert_eq!(limits, ChunkCoordinates::new(14, 15));
    for y in 0..limits.y {
        for x in 0..limits.x {
            let coords = ChunkCoordinates::new(x, y);
            let (cx, cy) = simul.get_global_coords(coords).unwrap();
            assert_eq!(simul.get_chunk_coords(cx, cy), coords);
        }
    }
}

#[test]
fn has_chunk_tells_inside_from_outside() {
    let simul = grid();
    assert!(simul.has_chunk(ChunkCoordinates::new(0, 0)));
    assert!(simul.has_chunk(ChunkCoordinates::new(9, 9)));
    assert!(!simul.has_chunk(ChunkCoordinates::new(10, 9)));
    assert!(!simul.has_chunk(ChunkCoordinates::new(9, 10)));
}

#[test]
fn neighbour_chunks() {
    let simul = grid();
    let at = ChunkCoordinates::new(4, 4);
    assert_eq!(simul.get_neighbour_chunk(at, 0, 0), at);
    assert_eq!(simul.get_neighbour_chunk(at, 1, -1), ChunkCoordinates::new(5, 3));
    assert_eq!(simul.get_neighbour_chunk(at, -1, 1), ChunkCoordinates::new(3, 5));
}

#[test]
fn neighbour_chunks_stop_at_the_edges() {
    let simul = grid();
    assert_eq!(
        simul.get_neighbour_chunk(ChunkCoordinates::new(0, 9), -1, 1),
        ChunkCoordinates::new(0, 9)
    );
    assert_eq!(
        simul.get_neighbour_chunk(ChunkCoordinates::new(9, 0), 1, -1),
        ChunkCoordinates::new(9, 0)
    );
    assert_eq!(
        simul.get_neighbour_chunk(ChunkCoordinates::new(3, 3), i64::MAX, i64::MIN),
        ChunkCoordinates::new(9, 0)
    );
    assert_eq!(
        simul.get_neighbour_chunk(ChunkCoordinates::new(usize::MAX, 50), 1, -45),
        ChunkCoordinates::new(9, 5)
    );
}
