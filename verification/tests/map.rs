use raycast_tui::map::{world, Tile, TileMap, HEIGHT, WIDTH};

#[test]
fn world_is_enclosed() {
    let world = world();
    for x in 0..WIDTH as i32 {
        assert_eq!(world.tile(x, 0), Tile::Wall);
        assert_eq!(world.tile(x, HEIGHT as i32 - 1), Tile::Wall);
    }
    for y in 0..HEIGHT as i32 {
        assert_eq!(world.tile(0, y), Tile::Wall);
        assert_eq!(world.tile(WIDTH as i32 - 1, y), Tile::Wall);
    }
}

#[test]
fn out_of_bounds_is_wall() {
    let world = world();
    assert_eq!(world.tile(-1, 5), Tile::Wall);
    assert_eq!(world.tile(5, -1), Tile::Wall);
    assert_eq!(world.tile(WIDTH as i32, 5), Tile::Wall);
    assert_eq!(world.tile(5, HEIGHT as i32), Tile::Wall);
}

#[test]
fn spawn_cell_is_empty() {
    assert_eq!(world().tile(2, 2), Tile::Empty);
}

#[test]
fn world_interior_follows_its_rows() {
    let world = world();
    // row 3 is "#..######...##...####..#"
    assert_eq!(world.tile(1, 3), Tile::Empty);
    assert_eq!(world.tile(3, 3), Tile::Wall);
    assert_eq!(world.tile(8, 3), Tile::Wall);
    assert_eq!(world.tile(9, 3), Tile::Empty);
    assert_eq!(world.tile(12, 3), Tile::Wall);
    // row 7 is "######...########...####"
    assert_eq!(world.tile(6, 7), Tile::Empty);
    assert_eq!(world.tile(9, 7), Tile::Wall);
    assert_eq!(world.tile(i32::MIN, i32::MAX), Tile::Wall);
}

fn rows_with(first: &'static str) -> [&'static str; HEIGHT] {
    let mut rows = ["........................"; HEIGHT];
    rows[0] = first;
    rows
}

#[test]
fn hash_and_one_are_walls() {
    let map = TileMap::from_ascii(rows_with("#1.a 2##################"));
    assert_eq!(map.tile(0, 0), Tile::Wall);
    assert_eq!(map.tile(1, 0), Tile::Wall);
    assert_eq!(map.tile(2, 0), Tile::Empty);
    assert_eq!(map.tile(3, 0), Tile::Empty);
    assert_eq!(map.tile(4, 0), Tile::Empty);
    assert_eq!(map.tile(5, 0), Tile::Empty);
    assert_eq!(map.tile(6, 0), Tile::Wall);
    assert_eq!(map.tile(0, 1), Tile::Empty);
}

