use autotile::grid::Matrix;
use autotile::map_utils::{inline_csv_to_matrix, optimize_map};
use autotile::types::{IntgridType, ObstacleType, Tile};

fn five_by_five() -> Matrix<i64> {
    let mut rows = Vec::new();
    for y in 0..5 {
        let mut row = Vec::new();
        for x in 0..5 {
            row.push(y * 10 + x);
        }
        rows.push(row);
    }
    Matrix::new(rows)
}

#[test]
fn corner_neighborhood_uses_default_outside() {
    let g = five_by_five();
    let n = g.get_surrounding_tiles(0, 0, 1, -9);
    assert_eq!(n, vec![vec![-9, -9, -9], vec![-9, 0, 1], vec![-9, 10, 11]]);
    let defaults = n.iter().flatten().filter(|v| **v == -9).count();
    assert_eq!(defaults, 5);
}

#[test]
fn inner_neighborhood_reads_the_grid() {
    let g = five_by_five();
    assert_eq!(g.get_surrounding_tiles(2, 3, 1, -9), vec![vec![21, 22, 23], vec![31, 32, 33], vec![41, 42, 43]]);
}

#[test]
fn opposite_corner_neighborhood() {
    let g = five_by_five();
    assert_eq!(g.get_surrounding_tiles(4, 4, 1, 0), vec![vec![33, 34, 0], vec![43, 44, 0], vec![0, 0, 0]]);
}

#[test]
fn radius_zero_is_the_cell() {
    let g = five_by_five();
    assert_eq!(g.get_surrounding_tiles(3, 1, 0, -1), vec![vec![13]]);
}

#[test]
fn neighborhood_of_non_square_grid() {
    let g = Matrix::new(vec![vec![1, 2, 3, 4]]);
    assert_eq!(g.get_surrounding_tiles(3, 0, 1, 0), vec![vec![0, 0, 0], vec![3, 4, 0], vec![0, 0, 0]]);
    assert_eq!(g.height(), 1);
    assert_eq!(g.width(), 4);
}

#[test]
fn from_size_fills_the_grid() {
    let m = Matrix::from_size(3, 2, 7i64);
    assert_eq!(m.0, vec![vec![7, 7, 7], vec![7, 7, 7]]);
    assert!(Matrix::from_size(-1, 2, 7i64).0.iter().all(|r| r.is_empty()));
    assert!(Matrix::<i64>::empty().0.is_empty());
}

#[test]
fn csv_is_cut_row_major() {
    let m = inline_csv_to_matrix(vec![1, 2, 3, 4, 5, 6], 2, 3);
    assert_eq!(m, vec![vec![1, 2, 3], vec![4, 5, 6]]);
}

#[test]
fn surrounded_dirt_is_hidden() {
    let m = vec![vec![2, 2, 2], vec![2, 2, 2], vec![2, 2, 1]];
    assert_eq!(optimize_map(m), vec![vec![-1, -1, -1], vec![-1, 2, 2], vec![-1, 2, 1]]);
}

#[test]
fn intgrid_types_convert() {
    assert_eq!(IntgridType::from(&1), IntgridType::Road);
    assert_eq!(IntgridType::from(&2), IntgridType::Dirt);
    assert_eq!(IntgridType::from(&3), IntgridType::Fence);
    assert_eq!(IntgridType::from(&0), IntgridType::Empty);
    assert_eq!(IntgridType::from(&9), IntgridType::Empty);
    assert_eq!(IntgridType::Fence.to_i64(), 3);
    assert_eq!(IntgridType::Empty.to_i64(), 0);
}

#[test]
fn tiles_and_obstacles() {
    let t = Tile::new(12);
    assert_eq!(t, Tile { value: 12, flip_x: false, flip_y: false });
    assert_eq!(t.to_i64(), 12);
    assert!(!t.is_empty());
    assert!(Tile::default().is_empty());
    assert_eq!(ObstacleType::from_value(&1), ObstacleType::RoadWork);
    assert_eq!(ObstacleType::from_value(&2), ObstacleType::WatterPuddle);
    assert_eq!(ObstacleType::from_value(&5), ObstacleType::Unknown);
}
