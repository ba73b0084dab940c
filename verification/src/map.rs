use vstd::prelude::*;
use vstd::string::StringSliceAdditionalSpecFns;

verus! {

/// One cell of the map.
#[derive(Clone, Copy, Debug, PartialEq, Eq, Structural)]
pub enum Tile {
    Empty,
    Wall,
}

/// Number of columns of the map.
pub const WIDTH: usize = 24;

/// Number of rows of the map.
pub const HEIGHT: usize = 24;

/// The tile that a map row's byte stands for: `#` and `1` are walls, anything
/// else is empty.
pub open spec fn tile_of_byte(b: u8) -> Tile {
    if b == 35u8 || b == 49u8 {
        Tile::Wall
    } else {
        Tile::Empty
    }
}

/// The tile at column `x`, row `y` of a grid of `HEIGHT` rows of `WIDTH`
/// tiles; everything outside the grid counts as wall.
pub open spec fn tile_at(tiles: Seq<Seq<Tile>>, x: int, y: int) -> Tile {
    if 0 <= x < WIDTH && 0 <= y < HEIGHT {
        tiles[y][x]
    } else {
        Tile::Wall
    }
}

/// A `WIDTH` × `HEIGHT` grid of tiles.
#[derive(Debug)]
pub struct TileMap {
    tiles: Vec<Vec<Tile>>,
}

impl View for TileMap {
    type V = Seq<Seq<Tile>>;

    closed spec fn view(&self) -> Seq<Seq<Tile>> {
        self.tiles@.map_values(|row: Vec<Tile>| row@)
    }
}

impl TileMap {
    #[verifier::type_invariant]
    spec fn well_formed(self) -> bool {
        &&& self.tiles@.len() == HEIGHT
        &&& forall|y: int| 0 <= y < HEIGHT ==> #[trigger] self.tiles@[y]@.len() == WIDTH
    }

    /// Builds a map from `HEIGHT` rows of `WIDTH` bytes each.
    pub fn from_ascii(rows: [&str; HEIGHT]) -> (map: Self)
        requires
            forall|y: int| 0 <= y < HEIGHT ==> (#[trigger] rows@[y]).spec_bytes().len() == WIDTH,
        ensures
            forall|x: int, y: int|
                0 <= x < WIDTH && 0 <= y < HEIGHT ==> #[trigger] tile_at(map@, x, y)
                    == tile_of_byte(rows@[y].spec_bytes()[x]),
    {
        let mut tiles: Vec<Vec<Tile>> = Vec::new();
        let mut y: usize = 0;
        while y < HEIGHT
            invariant
                y <= HEIGHT,
                tiles@.len() == y,
                forall|y: int| 0 <= y < HEIGHT ==> (#[trigger] rows@[y]).spec_bytes().len() == WIDTH,
                forall|j: int| 0 <= j < y ==> #[trigger] tiles@[j]@.len() == WIDTH,
                forall|i: int, j: int|
                    0 <= i < WIDTH && 0 <= j < y ==> #[trigger] tiles@[j]@[i] == tile_of_byte(
                        rows@[j].spec_bytes()[i],
                    ),
            decreases HEIGHT - y,
        {
            let bytes = rows[y].as_bytes();
            let mut row: Vec<Tile> = Vec::new();
            let mut x: usize = 0;
            while x < WIDTH
                invariant
                    x <= WIDTH,
                    bytes@ == rows@[y as int].spec_bytes(),
                    bytes@.len() == WIDTH,
                    row@.len() == x,
                    forall|i: int| 0 <= i < x ==> #[trigger] row@[i] == tile_of_byte(bytes@[i]),
                decreases WIDTH - x,
            {
                let b = bytes[x];
                // 35 is `#`, 49 is `1`
                let t = if b == 35u8 || b == 49u8 {
                    Tile::Wall
                } else {
                    Tile::Empty
                };
                row.push(t);
                x += 1;
            }
            tiles.push(row);
            y += 1;
        }
        let map = TileMap { tiles };
        assert forall|x: int, y: int|
            0 <= x < WIDTH && 0 <= y < HEIGHT implies #[trigger] tile_at(map@, x, y)
                == tile_of_byte(rows@[y].spec_bytes()[x]) by {
            assert(map@[y] == map.tiles@[y]@);
        }
        map
    }

    /// The tile at column `x`, row `y`; outside the map everything is wall.
    pub fn tile(&self, x: i32, y: i32) -> (t: Tile)
        ensures
            t == tile_at(self@, x as int, y as int),
    {
        proof {
            use_type_invariant(self);
        }
        if x < 0 || y < 0 {
            return Tile::Wall;
        }
        let x = x as usize;
        let y = y as usize;
        if y < self.tiles.len() && x < self.tiles[y].len() {
            proof {
                assert(self@[y as int] == self.tiles@[y as int]@);
            }
            self.tiles[y][x]
        } else {
            Tile::Wall
        }
    }
}


/// The rows of the world map.
pub open spec fn world_rows() -> Seq<Seq<char>> {
    seq![
        "########################"@,
        "#...........##.........#"@,
        "#...........##.........#"@,
        "#..######...##...####..#"@,
        "#..#................#..#"@,
        "#..#................#..#"@,
        "#......................#"@,
        "######...########...####"@,
        "#......................#"@,
        "#..#................#..#"@,
        "#..#......##........#..#"@,
        "#.........##...........#"@,
        "#.........##...........#"@,
        "#..#......##........#..#"@,
        "#..#................#..#"@,
        "#......................#"@,
        "######...########...####"@,
        "#......................#"@,
        "#..#................#..#"@,
        "#..#................#..#"@,
        "#..######...##...####..#"@,
        "#...........##.........#"@,
        "#...........##.........#"@,
        "########################"@,
    ]
}

/// Every tile on the border of the grid is a wall.
pub open spec fn enclosed(tiles: Seq<Seq<Tile>>) -> bool {
    &&& forall|x: int| 0 <= x < WIDTH ==> #[trigger] tile_at(tiles, x, 0) == Tile::Wall && tile_at(tiles, x, HEIGHT - 1) == Tile::Wall
    &&& forall|y: int| 0 <= y < HEIGHT ==> #[trigger] tile_at(tiles, 0, y) == Tile::Wall && tile_at(tiles, WIDTH - 1, y) == Tile::Wall
}

/// The walls of the world, as rectangles of cells (columns `x`, rows `y`,
/// bounds inclusive): the outer border; two-cell-wide stubs on the top and
/// bottom edges; two horizontal bars in rows 3 and 20 on each side; short
/// posts in columns 3 and 20; the dividing walls of rows 7 and 16 with three
/// gaps each; and a 2 × 4 pillar in the middle.
pub open spec fn world_wall(x: int, y: int) -> bool {
    ||| x == 0 || x == 23 || y == 0 || y == 23
    ||| 12 <= x <= 13 && (1 <= y <= 3 || 20 <= y <= 22)
    ||| (y == 3 || y == 20) && (3 <= x <= 8 || 17 <= x <= 20)
    ||| (x == 3 || x == 20) && (4 <= y <= 5 || 9 <= y <= 10 || 13 <= y <= 14 || 18 <= y <= 19)
    ||| (y == 7 || y == 16) && (0 <= x <= 5 || 9 <= x <= 16 || 20 <= x <= 23)
    ||| 10 <= x <= 11 && 10 <= y <= 13
}

/// The world's rows spell out its layout: a cell is `#` exactly where the
/// layout has a wall, and `.` elsewhere.
pub proof fn lemma_world_layout()
    ensures
        forall|x: int, y: int|
            0 <= x < WIDTH && 0 <= y < HEIGHT ==> #[trigger] world_rows()[y][x] == if world_wall(
                x,
                y,
            ) {
                '#'
            } else {
                '.'
            },
{
    reveal_strlit("########################");
    reveal_strlit("#...........##.........#");
    reveal_strlit("#..######...##...####..#");
    reveal_strlit("#..#................#..#");
    reveal_strlit("#......................#");
    reveal_strlit("######...########...####");
    reveal_strlit("#..#......##........#..#");
    reveal_strlit("#.........##...........#");
    assert forall|x: int, y: int| 0 <= x < WIDTH && 0 <= y < HEIGHT implies #[trigger] world_rows()[y][x]
        == if world_wall(x, y) {
        '#'
    } else {
        '.'
    } by {
        let row = world_rows()[y];
        assert(row.len() == 24);
    }
}

/// The world: a 24 × 24 grid, `#` for a wall.
pub fn world() -> (map: TileMap)
    ensures
        forall|x: int, y: int|
            0 <= x < WIDTH && 0 <= y < HEIGHT ==> #[trigger] tile_at(map@, x, y)
                == tile_of_byte(world_rows()[y][x] as u8),
        forall|x: int, y: int|
            0 <= x < WIDTH && 0 <= y < HEIGHT ==> #[trigger] tile_at(map@, x, y) == if world_wall(
                x,
                y,
            ) {
                Tile::Wall
            } else {
                Tile::Empty
            },
        enclosed(map@),
{
    proof {
        reveal_strlit("########################");
            reveal_strlit("#...........##.........#");
            reveal_strlit("#...........##.........#");
            reveal_strlit("#..######...##...####..#");
            reveal_strlit("#..#................#..#");
            reveal_strlit("#..#................#..#");
            reveal_strlit("#......................#");
            reveal_strlit("######...########...####");
            reveal_strlit("#......................#");
            reveal_strlit("#..#................#..#");
            reveal_strlit("#..#......##........#..#");
            reveal_strlit("#.........##...........#");
            reveal_strlit("#.........##...........#");
            reveal_strlit("#..#......##........#..#");
            reveal_strlit("#..#................#..#");
            reveal_strlit("#......................#");
            reveal_strlit("######...########...####");
            reveal_strlit("#......................#");
            reveal_strlit("#..#................#..#");
            reveal_strlit("#..#................#..#");
            reveal_strlit("#..######...##...####..#");
            reveal_strlit("#...........##.........#");
            reveal_strlit("#...........##.........#");
            reveal_strlit("########################");
    }
    let rows: [&str; HEIGHT] = [
            "########################",
            "#...........##.........#",
            "#...........##.........#",
            "#..######...##...####..#",
            "#..#................#..#",
            "#..#................#..#",
            "#......................#",
            "######...########...####",
            "#......................#",
            "#..#................#..#",
            "#..#......##........#..#",
            "#.........##...........#",
            "#.........##...........#",
            "#..#......##........#..#",
            "#..#................#..#",
            "#......................#",
            "######...########...####",
            "#......................#",
            "#..#................#..#",
            "#..#................#..#",
            "#..######...##...####..#",
            "#...........##.........#",
            "#...........##.........#",
            "########################",
        ];
    broadcast use vstd::string::is_ascii_spec_bytes;
    assert(forall|y: int| 0 <= y < HEIGHT ==> (#[trigger] rows@[y])@ == world_rows()[y]);
    assert(forall|y: int| 0 <= y < HEIGHT ==> vstd::string::is_ascii(#[trigger] rows@[y]));
    let map = TileMap::from_ascii(rows);
    proof {
        lemma_world_layout();
    }
    assert(forall|i: int| 0 <= i < WIDTH ==> #[trigger] world_rows()[0][i] == '#' && world_rows()[HEIGHT - 1][i] == '#');
    assert(forall|j: int| 0 <= j < HEIGHT ==> #[trigger] world_rows()[j][0] == '#' && world_rows()[j][WIDTH - 1] == '#');
    map
}

} // verus!
