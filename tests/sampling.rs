use raster_drone::{farthest_point_indices, farthest_point_sampling, grid_sampling, Coordinate, SamplingError};

fn pts(list: &[(u32, u32)]) -> Vec<Coordinate> {
    list.iter().map(|&(x, y)| Coordinate::new(x, y)).collect()
}

#[test]
fn fps_picks_farthest_points_in_order() {
    let input = pts(&[(0, 0), (10, 0), (0, 10), (10, 10), (5, 5)]);
    assert_eq!(farthest_point_indices(&input, 3), vec![4, 0, 1]);
    assert_eq!(farthest_point_sampling(&input, 3), pts(&[(5, 5), (0, 0), (10, 0)]));
}

#[test]
fn fps_on_a_line_takes_the_far_end() {
    let input = pts(&[(0, 0), (1, 0), (2, 0), (3, 0), (9, 0)]);
    assert_eq!(farthest_point_sampling(&input, 2), pts(&[(9, 0), (0, 0)]));
}

#[test]
fn fps_size_is_min_of_n_and_m() {
    let input: Vec<Coordinate> = (0..20u32).map(|i| Coordinate::new(i * 3 % 7, i)).collect();
    for n in 0..25u32 {
        let out = farthest_point_sampling(&input, n);
        assert_eq!(out.len(), std::cmp::min(n as usize, input.len()));
    }
}

#[test]
fn fps_is_deterministic_and_seeded_by_last_point() {
    let input: Vec<Coordinate> = (0..15u32).map(|i| Coordinate::new(i * 5 % 11, i * 3 % 13)).collect();
    let a = farthest_point_sampling(&input, 6);
    let b = farthest_point_sampling(&input, 6);
    assert_eq!(a, b);
    assert_eq!(a[0], input[input.len() - 1]);
}

#[test]
fn fps_never_selects_an_index_twice() {
    let mut input = pts(&[(1, 1), (1, 1), (1, 1), (2, 2), (2, 2)]);
    input.push(Coordinate::new(1, 1));
    let idx = farthest_point_indices(&input, 5);
    assert_eq!(idx.len(), 5);
    for i in 0..idx.len() {
        for j in (i + 1)..idx.len() {
            assert_ne!(idx[i], idx[j]);
        }
    }
}

#[test]
fn fps_with_zero_requested_is_empty() {
    let input = pts(&[(0, 0), (1, 1)]);
    assert!(farthest_point_sampling(&input, 0).is_empty());
}

#[test]
fn grid_keeps_first_point_per_cell() {
    let input = pts(&[(0, 0), (1, 1), (5, 5), (6, 4), (2, 9), (9, 9)]);
    let out = grid_sampling(&input, 5).unwrap();
    assert_eq!(out, pts(&[(0, 0), (5, 5), (6, 4), (2, 9)]));
}

#[test]
fn grid_output_cells_are_distinct() {
    let input: Vec<Coordinate> = (0..60u32).map(|i| Coordinate::new(i * 7 % 23, i * 11 % 19)).collect();
    let c = 4u32;
    let out = grid_sampling(&input, c).unwrap();
    for i in 0..out.len() {
        for j in (i + 1)..out.len() {
            assert_ne!((out[i].x() / c, out[i].y() / c), (out[j].x() / c, out[j].y() / c));
        }
    }
}

#[test]
fn grid_refuses_zero_cell_size() {
    let input = pts(&[(0, 0), (1, 1)]);
    assert_eq!(grid_sampling(&input, 0), Err(SamplingError::ZeroCellSize));
}

#[test]
fn no_sampling_when_fewer_points_than_requested() {
    let input = pts(&[(3, 1), (0, 0), (3, 1), (7, 2), (1, 9)]);
    assert_eq!(farthest_point_sampling(&input, 10), input);
    assert_eq!(grid_sampling(&input, 10).unwrap(), input);
}

#[test]
fn squared_distance_is_exact_for_far_points() {
    let a = Coordinate::new(0, 0);
    let b = Coordinate::new(u32::MAX, u32::MAX);
    let d = (u32::MAX as u128) * (u32::MAX as u128) * 2;
    assert_eq!(a.distance_squared(&b), d);
    assert_eq!(Coordinate::new(3, 7).distance_squared(&Coordinate::new(6, 3)), 25);
}
