//! Pac-Man Lite maze: static ASCII layout, wall grid, and pellet tracking.
//!
//! Grid coordinates are `(x, y)` with `(0, 0)` at the bottom-left corner; `x`
//! grows right and `y` grows up. [`MazeGrid`] parses the ASCII blueprint into
//! a wall grid and remembers the player/ghost spawn cells. [`PelletMap`]
//! tracks the food remaining on the board (win detection).

use vstd::prelude::*;
use vstd::string::StringSliceAdditionalSpecFns;
use crate::grid_pos::GridPos;

verus! {

/// Maze width in grid cells.
pub const WIDTH: usize = 21;

/// Maze height in grid cells.
pub const HEIGHT: usize = 17;

/// Number of cells on the board.
pub const CELLS: usize = 357;

/// Blueprint byte of a wall cell (`#`).
pub const WALL_BYTE: u8 = 35;

/// Blueprint byte of a dot pellet (`.`).
pub const DOT_BYTE: u8 = 46;

/// Blueprint byte of a power pellet (`o`).
pub const POWER_BYTE: u8 = 111;

/// Blueprint byte of the Pac-Man spawn (`P`).
pub const PACMAN_BYTE: u8 = 80;

/// Blueprint byte of the ghost-house center (`G`).
pub const GHOST_BYTE: u8 = 71;

/// ASCII blueprint; the first row is drawn at the top of the screen.
///
/// `#` wall, `.` dot pellet, `o` power pellet, ` ` empty path,
/// `P` Pac-Man spawn, `G` ghost-house center. Blueprint row `i` maps to grid
/// row `y = HEIGHT - 1 - i`. The layout is a 21x17 classic-ish maze: a sealed
/// ghost house in the middle with a top door, side corridors connecting the
/// upper and lower halves, and four power pellets at the outer quadrants.
pub const MAZE_ASCII: [&'static str; HEIGHT] = [
    "#####################",
    "#.........#.........#",
    "#.###.###.#.###.###.#",
    "#o#.....#...#.....#o#",
    "#.###.###.#.###.###.#",
    "#...................#",
    "#.###.#.#####.#.###.#",
    "#...................#",
    "#####..### ###..#####",
    "#####..#  G  #..#####",
    "#####..#######..#####",
    "#.....#.......#.....#",
    "#.###.#.#####.#.###.#",
    "#o#...#.......#...#o#",
    "#.###.###.#.###.###.#",
    "#........P#.........#",
    "#####################",
];

/// The bytes of blueprint row `row` (row 0 is the top of the screen).
pub open spec fn blueprint_row(row: int) -> Seq<u8> {
    MAZE_ASCII[row].spec_bytes()
}

/// The blueprint byte drawn at grid cell `(x, y)`, or `None` outside the
/// blueprint.
pub open spec fn blueprint_byte(x: int, y: int) -> Option<u8> {
    let row = HEIGHT - 1 - y;
    if 0 <= row < HEIGHT && 0 <= x < blueprint_row(row).len() {
        Some(blueprint_row(row)[x])
    } else {
        None
    }
}

/// Whether `p` lies inside the grid.
pub open spec fn in_grid(p: GridPos) -> bool {
    0 <= p.x < WIDTH && 0 <= p.y < HEIGHT
}

/// Row-major index of an in-grid cell, `y` growing upward.
pub open spec fn cell_index(p: GridPos) -> int {
    p.y * WIDTH + p.x
}

/// The cell stored at row-major index `i`.
pub open spec fn cell_at_index(i: int) -> GridPos {
    GridPos { x: (i % (WIDTH as int)) as i32, y: (i / (WIDTH as int)) as i32 }
}

/// Position of a cell in the blueprint's reading order (top row first,
/// left to right).
pub open spec fn scan_rank(p: GridPos) -> int {
    (HEIGHT - 1 - p.y) * WIDTH + p.x
}

/// Whether the blueprint marks cell `p` with byte `ch`.
pub open spec fn marker_at(p: GridPos, ch: u8) -> bool {
    in_grid(p) && blueprint_byte(p.x as int, p.y as int) == Some(ch)
}

/// `p` is the last cell marked `ch` among the first `k` cells in reading
/// order, or the origin when none of them is marked.
pub open spec fn last_marker_before(p: GridPos, ch: u8, k: int) -> bool {
    if exists|q: GridPos| #[trigger] marker_at(q, ch) && scan_rank(q) < k {
        &&& marker_at(p, ch)
        &&& scan_rank(p) < k
        &&& forall|q: GridPos| #[trigger] marker_at(q, ch) && scan_rank(q) < k ==> scan_rank(q) <= scan_rank(p)
    } else {
        p == GridPos { x: 0, y: 0 }
    }
}

/// `p` is the last cell marked `ch` in the whole blueprint (reading order),
/// or the origin when no cell is marked.
pub open spec fn last_marker(p: GridPos, ch: u8) -> bool {
    last_marker_before(p, ch, CELLS as int)
}

/// Abstract content of a parsed maze.
pub struct MazeModel {
    /// Wall flags in row-major order (`cell_index`).
    pub walls: Seq<bool>,
    /// Cell where Pac-Man starts each level.
    pub pacman_spawn: GridPos,
    /// Cell at the center of the ghost house.
    pub ghost_spawn: GridPos,
}

impl MazeModel {
    /// Whether `p` is a wall or lies outside the grid.
    pub open spec fn wall_at(self, p: GridPos) -> bool {
        !in_grid(p) || self.walls[cell_index(p)]
    }
}

/// The maze model is exactly the parsed blueprint: a cell is a wall iff the
/// blueprint draws `#` there, and the spawns are the last `P` and `G` marks.
pub open spec fn is_blueprint_maze(m: MazeModel) -> bool {
    &&& m.walls.len() == CELLS
    &&& forall|p: GridPos|
        #![trigger cell_index(p)]
        in_grid(p) ==> m.walls[cell_index(p)] == (blueprint_byte(p.x as int, p.y as int) == Some(WALL_BYTE))
    &&& last_marker(m.pacman_spawn, PACMAN_BYTE)
    &&& last_marker(m.ghost_spawn, GHOST_BYTE)
}

/// The blueprint is ASCII text and every row is exactly `WIDTH` bytes wide,
/// so parsing never leaves implicit open cells at row edges.
pub proof fn lemma_blueprint_rows_full_width()
    ensures
        forall|row: int| 0 <= row < HEIGHT ==> #[trigger] blueprint_row(row).len() == WIDTH,
{
    broadcast use vstd::string::group_string_axioms;

    reveal_strlit("#####################");
    reveal_strlit("#.........#.........#");
    reveal_strlit("#.###.###.#.###.###.#");
    reveal_strlit("#o#.....#...#.....#o#");
    reveal_strlit("#.###.###.#.###.###.#");
    reveal_strlit("#...................#");
    reveal_strlit("#.###.#.#####.#.###.#");
    reveal_strlit("#...................#");
    reveal_strlit("#####..### ###..#####");
    reveal_strlit("#####..#  G  #..#####");
    reveal_strlit("#####..#######..#####");
    reveal_strlit("#.....#.......#.....#");
    reveal_strlit("#.###.#.#####.#.###.#");
    reveal_strlit("#o#...#.......#...#o#");
    reveal_strlit("#.###.###.#.###.###.#");
    reveal_strlit("#........P#.........#");
    reveal_strlit("#####################");
    assert forall|row: int| 0 <= row < HEIGHT implies #[trigger] blueprint_row(row).len() == WIDTH by {
        assert(vstd::string::is_ascii(MAZE_ASCII[row]));
    }
}

/// Distinct in-grid cells have distinct reading-order ranks and distinct
/// row-major indices.
pub proof fn lemma_cell_numbering_injective(p: GridPos, q: GridPos)
    requires
        in_grid(p),
        in_grid(q),
    ensures
        scan_rank(p) == scan_rank(q) ==> p == q,
        cell_index(p) == cell_index(q) ==> p == q,
        0 <= scan_rank(p) < CELLS,
        0 <= cell_index(p) < CELLS,
{
    assert(scan_rank(p) == scan_rank(q) ==> p == q) by (nonlinear_arith)
        requires
            0 <= p.x < 21,
            0 <= q.x < 21,
            0 <= p.y < 17,
            0 <= q.y < 17,
            scan_rank(p) == (16 - p.y) * 21 + p.x,
            scan_rank(q) == (16 - q.y) * 21 + q.x,
    ;
    assert(cell_index(p) == cell_index(q) ==> p == q) by (nonlinear_arith)
        requires
            0 <= p.x < 21,
            0 <= q.x < 21,
            0 <= p.y < 17,
            0 <= q.y < 17,
            cell_index(p) == p.y * 21 + p.x,
            cell_index(q) == q.y * 21 + q.x,
    ;
}

/// Extending the scanned prefix by the cell of rank `k` keeps track of the
/// last marked cell.
proof fn lemma_last_marker_step(old_p: GridPos, ch: u8, k: int, c: GridPos, new_p: GridPos)
    requires
        last_marker_before(old_p, ch, k),
        in_grid(c),
        scan_rank(c) == k,
        new_p == (if marker_at(c, ch) { c } else { old_p }),
    ensures
        last_marker_before(new_p, ch, k + 1),
{
    assert forall|q: GridPos| #[trigger] marker_at(q, ch) && scan_rank(q) == k implies q == c by {
        lemma_cell_numbering_injective(q, c);
    }
    if marker_at(c, ch) {
        assert(marker_at(c, ch) && scan_rank(c) < k + 1);
    } else {
        if exists|q: GridPos| #[trigger] marker_at(q, ch) && scan_rank(q) < k + 1 {
            let q = choose|q: GridPos| #[trigger] marker_at(q, ch) && scan_rank(q) < k + 1;
            assert(marker_at(q, ch) && scan_rank(q) < k);
        }
    }
}

/// Static maze wall layout, parsed from [`MAZE_ASCII`].
///
/// `is_wall` treats out-of-bounds cells as walls, so movement code never has
/// to branch on bounds separately.
#[derive(Debug)]
pub struct MazeGrid {
    /// Wall flags in row-major order, `y` growing upward.
    walls: Vec<bool>,
    /// Cell where Pac-Man starts each level.
    pacman_spawn: GridPos,
    /// Cell at the center of the ghost house.
    ghost_spawn: GridPos,
}

impl View for MazeGrid {
    type V = MazeModel;

    closed spec fn view(&self) -> MazeModel {
        MazeModel {
            walls: self.walls@,
            pacman_spawn: self.pacman_spawn,
            ghost_spawn: self.ghost_spawn,
        }
    }
}

impl Default for MazeGrid {
    fn default() -> (r: Self)
        ensures
            is_blueprint_maze(r@),
    {
        Self::parse_layout()
    }
}

impl MazeGrid {
    /// Every maze is the parsed blueprint.
    #[verifier::type_invariant]
    pub open spec fn is_parsed_blueprint(self) -> bool {
        is_blueprint_maze(self@)
    }

    /// Parses [`MAZE_ASCII`] into a wall grid and locates the spawn cells.
    fn parse_layout() -> (r: Self)
        ensures
            is_blueprint_maze(r@),
    {
        proof {
            lemma_blueprint_rows_full_width();
        }
        let mut walls: Vec<bool> = Vec::new();
        let mut i: usize = 0;
        while i < CELLS
            invariant
                i <= CELLS,
                walls.len() == i,
            decreases CELLS - i,
        {
            walls.push(false);
            i += 1;
        }
        let mut pacman_spawn = GridPos::new(0, 0);
        let mut ghost_spawn = GridPos::new(0, 0);
        let mut row: usize = 0;
        while row < HEIGHT
            invariant
                row <= HEIGHT,
                walls.len() == CELLS,
                forall|r: int| 0 <= r < HEIGHT ==> #[trigger] blueprint_row(r).len() == WIDTH,
                forall|p: GridPos|
                    #![trigger cell_index(p)]
                    in_grid(p) && scan_rank(p) < row * WIDTH ==> walls@[cell_index(p)] == (
                    blueprint_byte(p.x as int, p.y as int) == Some(WALL_BYTE)),
                last_marker_before(pacman_spawn, PACMAN_BYTE, row * WIDTH),
                last_marker_before(ghost_spawn, GHOST_BYTE, row * WIDTH),
            decreases HEIGHT - row,
        {
            let y: usize = HEIGHT - 1 - row;
            let line: &str = MAZE_ASCII[row];
            let bytes: &[u8] = line.as_bytes();
            let n = bytes.len();
            assert(bytes@ == blueprint_row(row as int));
            let limit: usize = if n < WIDTH { n } else { WIDTH };
            let mut x: usize = 0;
            while x < limit
                invariant
                    row < HEIGHT,
                    y == HEIGHT - 1 - row,
                    limit == WIDTH,
                    x <= limit,
                    bytes@ == blueprint_row(row as int),
                    walls.len() == CELLS,
                    forall|r: int| 0 <= r < HEIGHT ==> #[trigger] blueprint_row(r).len() == WIDTH,
                    forall|p: GridPos|
                        #![trigger cell_index(p)]
                        in_grid(p) && scan_rank(p) < row * WIDTH + x ==> walls@[cell_index(p)]
                            == (blueprint_byte(p.x as int, p.y as int) == Some(WALL_BYTE)),
                    last_marker_before(pacman_spawn, PACMAN_BYTE, row * WIDTH + x),
                    last_marker_before(ghost_spawn, GHOST_BYTE, row * WIDTH + x),
                decreases limit - x,
            {
                let ch: u8 = bytes[x];
                let c = GridPos::new(x as i32, y as i32);
                let idx: usize = y * WIDTH + x;
                let ghost old_walls = walls@;
                let ghost old_pac = pacman_spawn;
                let ghost old_ghost = ghost_spawn;
                proof {
                    assert(in_grid(c));
                    assert(scan_rank(c) == row * WIDTH + x);
                    assert(cell_index(c) == idx);
                    assert(blueprint_byte(c.x as int, c.y as int) == Some(ch));
                }
                walls.set(idx, ch == WALL_BYTE);
                if ch == PACMAN_BYTE {
                    pacman_spawn = c;
                } else if ch == GHOST_BYTE {
                    ghost_spawn = c;
                }
                proof {
                    lemma_last_marker_step(old_pac, PACMAN_BYTE, row * WIDTH + x, c, pacman_spawn);
                    lemma_last_marker_step(old_ghost, GHOST_BYTE, row * WIDTH + x, c, ghost_spawn);
                    assert forall|p: GridPos|
                        #![trigger cell_index(p)]
                        in_grid(p) && scan_rank(p) < row * WIDTH + x + 1 implies walls@[cell_index(p)]
                            == (blueprint_byte(p.x as int, p.y as int) == Some(WALL_BYTE)) by {
                        lemma_cell_numbering_injective(p, c);
                        if scan_rank(p) < row * WIDTH + x {
                            assert(walls@[cell_index(p)] == old_walls[cell_index(p)]);
                        }
                    }
                }
                x += 1;
            }
            row += 1;
        }
        proof {
            assert forall|p: GridPos| #![trigger cell_index(p)] in_grid(p) implies scan_rank(p) < HEIGHT * WIDTH by {
                lemma_cell_numbering_injective(p, p);
            }
        }
        MazeGrid { walls, pacman_spawn, ghost_spawn }
    }

    /// Returns `true` when `pos` lies inside the grid.
    pub fn in_bounds(&self, pos: GridPos) -> (r: bool)
        ensures
            r == in_grid(pos),
    {
        0 <= pos.x && (pos.x as usize) < WIDTH && 0 <= pos.y && (pos.y as usize) < HEIGHT
    }

    /// Returns `true` when `pos` is a wall or lies outside the grid.
    pub fn is_wall(&self, pos: GridPos) -> (r: bool)
        ensures
            r == self@.wall_at(pos),
    {
        proof {
            use_type_invariant(self);
        }
        if pos.x < 0 || pos.y < 0 {
            return true;
        }
        let x = pos.x as usize;
        let y = pos.y as usize;
        if x >= WIDTH || y >= HEIGHT {
            return true;
        }
        proof {
            lemma_cell_numbering_injective(pos, pos);
        }
        self.walls[y * WIDTH + x]
    }

    /// Cell where Pac-Man spawns each level.
    pub fn pacman_spawn(&self) -> (r: GridPos)
        ensures
            r == self@.pacman_spawn,
    {
        self.pacman_spawn
    }

    /// Cell at the center of the ghost house.
    pub fn ghost_spawn(&self) -> (r: GridPos)
        ensures
            r == self@.ghost_spawn,
    {
        self.ghost_spawn
    }

}

/// Out-of-bounds cells count as walls; in-bounds cells are walls exactly
/// where the blueprint draws `#`.
pub proof fn lemma_walls_match_blueprint(m: MazeModel, p: GridPos)
    requires
        is_blueprint_maze(m),
    ensures
        !in_grid(p) ==> m.wall_at(p),
        in_grid(p) ==> (m.wall_at(p) <==> blueprint_byte(p.x as int, p.y as int) == Some(WALL_BYTE)),
{
}

/// Kind of food a cell holds.
#[derive(Debug, Clone, Copy, PartialEq, Eq, Structural)]
pub enum PelletKind {
    /// Ordinary dot pellet.
    Pellet,
    /// Power pellet that frightens the ghosts.
    Power,
}

/// Food the blueprint places on a cell that is not a wall.
pub open spec fn food_of_byte(b: Option<u8>) -> Option<PelletKind> {
    if b == Some(DOT_BYTE) {
        Some(PelletKind::Pellet)
    } else if b == Some(POWER_BYTE) {
        Some(PelletKind::Power)
    } else {
        None
    }
}

/// Food on cell `p` of a board (row-major cell contents); nothing outside
/// the grid.
pub open spec fn food_at(board: Seq<Option<PelletKind>>, p: GridPos) -> Option<PelletKind> {
    if in_grid(p) {
        board[cell_index(p)]
    } else {
        None
    }
}

/// Number of cells of `s` holding food of kind `k`.
pub open spec fn count_kind(s: Seq<Option<PelletKind>>, k: PelletKind) -> nat
    decreases s.len(),
{
    if s.len() == 0 {
        0
    } else {
        count_kind(s.drop_last(), k) + (if s.last() == Some(k) { 1nat } else { 0nat })
    }
}

/// Number of food items (dots and power pellets) on a board.
pub open spec fn food_count(s: Seq<Option<PelletKind>>) -> nat {
    count_kind(s, PelletKind::Pellet) + count_kind(s, PelletKind::Power)
}

/// The board that the blueprint describes for maze `m`: every non-wall cell
/// holds the food its blueprint byte names.
pub open spec fn initial_board(m: MazeModel) -> Seq<Option<PelletKind>> {
    Seq::new(
        CELLS as nat,
        |i: int|
            if m.wall_at(cell_at_index(i)) {
                None
            } else {
                food_of_byte(
                    blueprint_byte(cell_at_index(i).x as int, cell_at_index(i).y as int),
                )
            },
    )
}

/// The board after eating at `p`: the cell is emptied.
pub open spec fn board_after_eat(board: Seq<Option<PelletKind>>, p: GridPos) -> Seq<
    Option<PelletKind>,
> {
    if in_grid(p) {
        board.update(cell_index(p), None)
    } else {
        board
    }
}

/// A count never exceeds the number of cells.
pub proof fn lemma_count_bounded(s: Seq<Option<PelletKind>>, k: PelletKind)
    ensures
        count_kind(s, k) <= s.len(),
    decreases s.len(),
{
    if s.len() > 0 {
        lemma_count_bounded(s.drop_last(), k);
    }
}

/// Writing `v` at index `i` changes each count by the difference between the
/// old and the new content of that cell.
pub proof fn lemma_count_update(
    s: Seq<Option<PelletKind>>,
    i: int,
    v: Option<PelletKind>,
    k: PelletKind,
)
    requires
        0 <= i < s.len(),
    ensures
        count_kind(s.update(i, v), k) + (if s[i] == Some(k) { 1int } else { 0int }) == count_kind(
            s,
            k,
        ) + (if v == Some(k) { 1int } else { 0int }),
    decreases s.len(),
{
    let t = s.update(i, v);
    if i == s.len() - 1 {
        assert(t.drop_last() =~= s.drop_last());
    } else {
        assert(t.drop_last() =~= s.drop_last().update(i, v));
        lemma_count_update(s.drop_last(), i, v, k);
    }
}

/// A board with no food has count zero.
pub proof fn lemma_count_empty(s: Seq<Option<PelletKind>>, k: PelletKind)
    requires
        forall|i: int| 0 <= i < s.len() ==> s[i] is None,
    ensures
        count_kind(s, k) == 0,
    decreases s.len(),
{
    if s.len() > 0 {
        lemma_count_empty(s.drop_last(), k);
    }
}

/// Counting a board built cell by cell.
pub proof fn lemma_count_push(s: Seq<Option<PelletKind>>, v: Option<PelletKind>, k: PelletKind)
    ensures
        count_kind(s.push(v), k) == count_kind(s, k) + (if v == Some(k) { 1nat } else { 0nat }),
{
    assert(s.push(v).drop_last() =~= s);
}

/// Food remaining on the current level.
///
/// `remaining() == 0` means the level is cleared. The default value is an
/// empty board; build the real board with [`PelletMap::from_maze`].
#[derive(Debug)]
pub struct PelletMap {
    /// Food of each cell in row-major order.
    cells: Vec<Option<PelletKind>>,
    /// Number of dot pellets on the board.
    dots: usize,
    /// Number of power pellets on the board.
    powers: usize,
}

impl View for PelletMap {
    type V = Seq<Option<PelletKind>>;

    closed spec fn view(&self) -> Seq<Option<PelletKind>> {
        self.cells@
    }
}

impl Default for PelletMap {
    /// An empty board.
    fn default() -> (r: Self)
        ensures
            r.wf(),
            r@.len() == CELLS,
            forall|i: int| 0 <= i < CELLS ==> #[trigger] r@[i] is None,
    {
        let mut cells: Vec<Option<PelletKind>> = Vec::new();
        let mut i: usize = 0;
        while i < CELLS
            invariant
                i <= CELLS,
                cells.len() == i,
                forall|j: int| 0 <= j < i ==> #[trigger] cells@[j] is None,
            decreases CELLS - i,
        {
            cells.push(None);
            i += 1;
        }
        proof {
            lemma_count_empty(cells@, PelletKind::Pellet);
            lemma_count_empty(cells@, PelletKind::Power);
        }
        PelletMap { cells, dots: 0, powers: 0 }
    }
}

impl PelletMap {
    /// The board covers every cell and the counters agree with it.
    pub closed spec fn wf(self) -> bool {
        &&& self.cells@.len() == CELLS
        &&& self.dots == count_kind(self.cells@, PelletKind::Pellet)
        &&& self.powers == count_kind(self.cells@, PelletKind::Power)
    }

    /// A well-formed board has one entry per grid cell.
    pub proof fn lemma_board_covers_grid(&self)
        requires
            self.wf(),
        ensures
            self@.len() == CELLS,
    {
    }

    /// Collects every pellet position from the maze layout, skipping wall
    /// cells so the map stays consistent with the wall grid.
    pub fn from_maze(grid: &MazeGrid) -> (r: Self)
        ensures
            r.wf(),
            r@ == initial_board(grid@),
    {
        proof {
            lemma_blueprint_rows_full_width();
        }
        let mut cells: Vec<Option<PelletKind>> = Vec::new();
        let mut dots: usize = 0;
        let mut powers: usize = 0;
        let mut y: usize = 0;
        while y < HEIGHT
            invariant
                y <= HEIGHT,
                cells.len() == y * WIDTH,
                forall|r: int| 0 <= r < HEIGHT ==> #[trigger] blueprint_row(r).len() == WIDTH,
                forall|i: int| 0 <= i < cells.len() ==> #[trigger] cells@[i] == initial_board(grid@)[i],
                dots == count_kind(cells@, PelletKind::Pellet),
                powers == count_kind(cells@, PelletKind::Power),
            decreases HEIGHT - y,
        {
            let mut x: usize = 0;
            while x < WIDTH
                invariant
                    y < HEIGHT,
                    x <= WIDTH,
                    cells.len() == y * WIDTH + x,
                    forall|r: int| 0 <= r < HEIGHT ==> #[trigger] blueprint_row(r).len() == WIDTH,
                    forall|i: int|
                        0 <= i < cells.len() ==> #[trigger] cells@[i] == initial_board(grid@)[i],
                    dots == count_kind(cells@, PelletKind::Pellet),
                    powers == count_kind(cells@, PelletKind::Power),
                decreases WIDTH - x,
            {
                let pos = GridPos::new(x as i32, y as i32);
                let ghost i = cells.len() as int;
                proof {
                    assert(i % 21 == x && i / 21 == y) by (nonlinear_arith)
                        requires
                            i == y * 21 + x,
                            0 <= x < 21,
                            0 <= y < 17,
                    ;
                    assert(cell_at_index(i) == pos);
                    lemma_count_bounded(cells@, PelletKind::Pellet);
                    lemma_count_bounded(cells@, PelletKind::Power);
                }
                let food: Option<PelletKind> = if grid.is_wall(pos) {
                    None
                } else {
                    let row: usize = HEIGHT - 1 - y;
                    let bytes: &[u8] = MAZE_ASCII[row].as_bytes();
                    assert(bytes@ == blueprint_row(row as int));
                    let b = bytes[x];
                    assert(blueprint_byte(pos.x as int, pos.y as int) == Some(b));
                    if b == DOT_BYTE {
                        Some(PelletKind::Pellet)
                    } else if b == POWER_BYTE {
                        Some(PelletKind::Power)
                    } else {
                        None
                    }
                };
                proof {
                    lemma_count_push(cells@, food, PelletKind::Pellet);
                    lemma_count_push(cells@, food, PelletKind::Power);
                }
                cells.push(food);
                if food == Some(PelletKind::Pellet) {
                    dots = dots + 1;
                } else if food == Some(PelletKind::Power) {
                    powers = powers + 1;
                }
                x += 1;
            }
            y += 1;
        }
        proof {
            assert(cells@ =~= initial_board(grid@));
        }
        PelletMap { cells, dots, powers }
    }
    /// Exec index of an in-grid cell.
    fn index_of(pos: GridPos) -> (i: usize)
        requires
            in_grid(pos),
        ensures
            i == cell_index(pos),
            i < CELLS,
    {
        proof {
            lemma_cell_numbering_injective(pos, pos);
        }
        (pos.y as usize) * WIDTH + (pos.x as usize)
    }

    /// Removes food of kind `kind` from cell `i`, keeping the counters in step.
    fn empty_cell(
        cells: &mut Vec<Option<PelletKind>>,
        dots: &mut usize,
        powers: &mut usize,
        i: usize,
        kind: PelletKind,
    )
        requires
            i < old(cells)@.len(),
            old(cells)@[i as int] == Some(kind),
            *old(dots) == count_kind(old(cells)@, PelletKind::Pellet),
            *old(powers) == count_kind(old(cells)@, PelletKind::Power),
        ensures
            final(cells)@ == old(cells)@.update(i as int, None),
            *final(dots) == count_kind(final(cells)@, PelletKind::Pellet),
            *final(powers) == count_kind(final(cells)@, PelletKind::Power),
    {
        proof {
            lemma_count_update(cells@, i as int, None, PelletKind::Pellet);
            lemma_count_update(cells@, i as int, None, PelletKind::Power);
        }
        cells.set(i, None);
        match kind {
            PelletKind::Pellet => *dots = *dots - 1,
            PelletKind::Power => *powers = *powers - 1,
        }
    }

    /// Consumes the food at `pos`, returning its kind, or `None` if that cell
    /// was already eaten (or never held food).
    pub fn eat(&mut self, pos: GridPos) -> (r: Option<PelletKind>)
        requires
            old(self).wf(),
        ensures
            final(self).wf(),
            r == food_at(old(self)@, pos),
            final(self)@ == board_after_eat(old(self)@, pos),
    {
        if !(0 <= pos.x && (pos.x as usize) < WIDTH && 0 <= pos.y && (pos.y as usize) < HEIGHT) {
            return None;
        }
        let i = Self::index_of(pos);
        let cur = self.cells[i];
        match cur {
            Some(kind) => {
                proof {
                    lemma_count_update(self.cells@, i as int, None, PelletKind::Pellet);
                    lemma_count_update(self.cells@, i as int, None, PelletKind::Power);
                }
                Self::empty_cell(&mut self.cells, &mut self.dots, &mut self.powers, i, kind);
                Some(kind)
            },
            None => None,
        }
    }

    /// Number of food items (dots + power pellets) still on the board.
    pub fn remaining(&self) -> (r: usize)
        requires
            self.wf(),
        ensures
            r == food_count(self@),
    {
        proof {
            lemma_count_bounded(self.cells@, PelletKind::Pellet);
            lemma_count_bounded(self.cells@, PelletKind::Power);
        }
        self.dots + self.powers
    }

    /// Number of power pellets still on the board.
    pub fn remaining_power(&self) -> (r: usize)
        requires
            self.wf(),
        ensures
            r == count_kind(self@, PelletKind::Power),
    {
        self.powers
    }

    /// Whether any food (dot or power) remains at `pos`.
    pub fn has_food(&self, pos: GridPos) -> (r: bool)
        requires
            self.wf(),
        ensures
            r == food_at(self@, pos) is Some,
    {
        if !(0 <= pos.x && (pos.x as usize) < WIDTH && 0 <= pos.y && (pos.y as usize) < HEIGHT) {
            return false;
        }
        let i = Self::index_of(pos);
        self.cells[i].is_some()
    }

    /// The kind of food at `pos`, if any.
    pub fn kind_at(&self, pos: GridPos) -> (r: Option<PelletKind>)
        requires
            self.wf(),
        ensures
            r == food_at(self@, pos),
    {
        if !(0 <= pos.x && (pos.x as usize) < WIDTH && 0 <= pos.y && (pos.y as usize) < HEIGHT) {
            return None;
        }
        let i = Self::index_of(pos);
        self.cells[i]
    }

    /// Total food items that existed when the level started.
    pub fn total_initial(grid: &MazeGrid) -> (r: usize)
        ensures
            r == food_count(initial_board(grid@)),
    {
        PelletMap::from_maze(grid).remaining()
    }

    /// Empties the board, e.g. when a level is cleared or reset.
    pub fn clear_level(&mut self)
        ensures
            final(self).wf(),
            final(self)@.len() == CELLS,
            forall|i: int| 0 <= i < CELLS ==> #[trigger] final(self)@[i] is None,
    {
        *self = PelletMap::default();
    }
}

/// Eating a cell empties it: eating the same cell again yields nothing.
pub proof fn lemma_eat_exhausts_cell(board: Seq<Option<PelletKind>>, p: GridPos)
    requires
        board.len() == CELLS,
    ensures
        food_at(board_after_eat(board, p), p) is None,
{
    if in_grid(p) {
        lemma_cell_numbering_injective(p, p);
    }
}

/// Eating leaves every other cell untouched.
pub proof fn lemma_eat_is_local(board: Seq<Option<PelletKind>>, p: GridPos, q: GridPos)
    requires
        board.len() == CELLS,
        p != q,
    ensures
        food_at(board_after_eat(board, p), q) == food_at(board, q),
{
    if in_grid(p) && in_grid(q) {
        lemma_cell_numbering_injective(p, q);
    }
}

/// Eating removes exactly one food item when the cell held food, and none
/// otherwise.
pub proof fn lemma_eat_count(board: Seq<Option<PelletKind>>, p: GridPos)
    requires
        board.len() == CELLS,
    ensures
        food_count(board_after_eat(board, p)) + (if food_at(board, p) is Some { 1int } else { 0int })
            == food_count(board),
        count_kind(board_after_eat(board, p), PelletKind::Power) + (if food_at(board, p) == Some(
            PelletKind::Power,
        ) { 1int } else { 0int }) == count_kind(board, PelletKind::Power),
{
    if in_grid(p) {
        lemma_cell_numbering_injective(p, p);
        lemma_count_update(board, cell_index(p), None, PelletKind::Pellet);
        lemma_count_update(board, cell_index(p), None, PelletKind::Power);
        match board[cell_index(p)] {
            Some(PelletKind::Pellet) => {},
            Some(PelletKind::Power) => {},
            None => {},
        }
    }
}

/// An emptied board holds no food.
pub proof fn lemma_cleared_board_is_empty(board: Seq<Option<PelletKind>>, p: GridPos)
    requires
        forall|i: int| 0 <= i < board.len() ==> #[trigger] board[i] is None,
    ensures
        food_count(board) == 0,
        board.len() == CELLS ==> food_at(board, p) is None,
{
    lemma_count_empty(board, PelletKind::Pellet);
    lemma_count_empty(board, PelletKind::Power);
    if in_grid(p) && board.len() == CELLS {
        lemma_cell_numbering_injective(p, p);
    }
}

/// The initial board never places food on a wall, and holds food exactly
/// where the blueprint draws `.` or `o`.
pub proof fn lemma_initial_board_food(m: MazeModel, p: GridPos)
    requires
        is_blueprint_maze(m),
    ensures
        initial_board(m).len() == CELLS,
        food_at(initial_board(m), p) is Some ==> !m.wall_at(p),
        in_grid(p) ==> food_at(initial_board(m), p) == food_of_byte(
            blueprint_byte(p.x as int, p.y as int),
        ),
{
    if in_grid(p) {
        lemma_cell_numbering_injective(p, p);
        let i = cell_index(p);
        assert(i % 21 == p.x && i / 21 == p.y) by (nonlinear_arith)
            requires
                i == p.y * 21 + p.x,
                0 <= p.x < 21,
                0 <= p.y < 17,
        ;
        assert(cell_at_index(i) == p);
    }
}

/// Row-major numbering and its inverse agree on the board.
pub proof fn lemma_cell_at_index(i: int)
    requires
        0 <= i < CELLS,
    ensures
        in_grid(cell_at_index(i)),
        cell_index(cell_at_index(i)) == i,
{
    assert(0 <= i % 21 < 21 && 0 <= i / 21 < 17 && (i / 21) * 21 + i % 21 == i) by (nonlinear_arith)
        requires
            0 <= i < 357,
    ;
}

/// The spawns read from a parsed blueprint lie on the board.
pub proof fn lemma_spawns_in_grid(m: MazeModel)
    requires
        is_blueprint_maze(m),
    ensures
        in_grid(m.pacman_spawn),
        in_grid(m.ghost_spawn),
{
}

/// The blueprint's spawn marks: Pac-Man's `P` at `(9, 1)` and the ghost
/// house's `G` at `(10, 7)`, each the only one of its kind from there on in
/// reading order; the ghost-house row is open from `x = 8` to `x = 12`.
proof fn lemma_blueprint_marks()
    ensures
        marker_at(GridPos { x: 9, y: 1 }, PACMAN_BYTE),
        marker_at(GridPos { x: 10, y: 7 }, GHOST_BYTE),
        forall|q: GridPos| #[trigger] marker_at(q, PACMAN_BYTE) ==> scan_rank(q) <= scan_rank(GridPos { x: 9, y: 1 }),
        forall|q: GridPos| #[trigger] marker_at(q, GHOST_BYTE) ==> scan_rank(q) <= scan_rank(GridPos { x: 10, y: 7 }),
        forall|x: int| 8 <= x <= 12 ==> blueprint_byte(x, 7) != Some(WALL_BYTE),
{
    broadcast use vstd::string::group_string_axioms;

    reveal_strlit("#####..#  G  #..#####");
    reveal_strlit("#####..#######..#####");
    reveal_strlit("#.....#.......#.....#");
    reveal_strlit("#.###.#.#####.#.###.#");
    reveal_strlit("#o#...#.......#...#o#");
    reveal_strlit("#.###.###.#.###.###.#");
    reveal_strlit("#........P#.........#");
    reveal_strlit("#####################");
    assert(vstd::string::is_ascii(MAZE_ASCII[9]));
    assert(vstd::string::is_ascii(MAZE_ASCII[15]));
    assert(blueprint_row(15)[9] == PACMAN_BYTE);
    assert(blueprint_row(9)[10] == GHOST_BYTE);
    assert forall|q: GridPos| #[trigger] marker_at(q, PACMAN_BYTE) implies scan_rank(q) <= scan_rank(GridPos { x: 9, y: 1 }) by {
        let row = HEIGHT - 1 - q.y;
        if row == 15 {
            assert(vstd::string::is_ascii(MAZE_ASCII[15]));
            assert(q.x <= 9);
        } else if row == 16 {
            assert(vstd::string::is_ascii(MAZE_ASCII[16]));
            assert(false);
        } else {
            assert(row < 15);
        }
    }
    assert forall|q: GridPos| #[trigger] marker_at(q, GHOST_BYTE) implies scan_rank(q) <= scan_rank(GridPos { x: 10, y: 7 }) by {
        let row = HEIGHT - 1 - q.y;
        if row == 9 {
            assert(q.x <= 10);
        } else if row == 10 {
            assert(vstd::string::is_ascii(MAZE_ASCII[10]));
            assert(false);
        } else if row == 11 {
            assert(vstd::string::is_ascii(MAZE_ASCII[11]));
            assert(false);
        } else if row == 12 {
            assert(vstd::string::is_ascii(MAZE_ASCII[12]));
            assert(false);
        } else if row == 13 {
            assert(vstd::string::is_ascii(MAZE_ASCII[13]));
            assert(false);
        } else if row == 14 {
            assert(vstd::string::is_ascii(MAZE_ASCII[14]));
            assert(false);
        } else if row == 15 {
            assert(vstd::string::is_ascii(MAZE_ASCII[15]));
            assert(false);
        } else if row == 16 {
            assert(vstd::string::is_ascii(MAZE_ASCII[16]));
            assert(false);
        } else {
            assert(row < 9);
        }
    }
}

/// The parsed blueprint puts Pac-Man's spawn at `(9, 1)` and the ghost house
/// at `(10, 7)`; both spawns, and the ghost-house row from `x = 8` to
/// `x = 12`, are open cells.
pub proof fn lemma_blueprint_spawns(m: MazeModel)
    requires
        is_blueprint_maze(m),
    ensures
        m.pacman_spawn == (GridPos { x: 9, y: 1 }),
        m.ghost_spawn == (GridPos { x: 10, y: 7 }),
        !m.wall_at(m.pacman_spawn),
        forall|x: int| 8 <= x <= 12 ==> !#[trigger] m.wall_at(GridPos { x: x as i32, y: 7 }),
{
    lemma_blueprint_marks();
    let p = GridPos { x: 9, y: 1 };
    let g = GridPos { x: 10, y: 7 };
    assert(exists|q: GridPos| #[trigger] marker_at(q, PACMAN_BYTE) && scan_rank(q) < CELLS as int) by {
        assert(marker_at(p, PACMAN_BYTE) && scan_rank(p) < CELLS as int);
    }
    assert(exists|q: GridPos| #[trigger] marker_at(q, GHOST_BYTE) && scan_rank(q) < CELLS as int) by {
        assert(marker_at(g, GHOST_BYTE) && scan_rank(g) < CELLS as int);
    }
    lemma_cell_numbering_injective(m.pacman_spawn, p);
    lemma_cell_numbering_injective(m.ghost_spawn, g);
    assert(cell_index(p) == 30);
    assert forall|x: int| 8 <= x <= 12 implies !#[trigger] m.wall_at(GridPos { x: x as i32, y: 7 }) by {
        let c = GridPos { x: x as i32, y: 7 };
        assert(in_grid(c));
        assert(m.walls[cell_index(c)] == (blueprint_byte(c.x as int, c.y as int) == Some(WALL_BYTE)));
    }
    assert(m.walls[cell_index(p)] == (blueprint_byte(9, 1) == Some(WALL_BYTE)));
}

/// There is exactly one blueprint maze: any two models of the blueprint
/// are equal.
pub proof fn lemma_blueprint_unique(a: MazeModel, b: MazeModel)
    requires
        is_blueprint_maze(a),
        is_blueprint_maze(b),
    ensures
        a == b,
{
    lemma_blueprint_spawns(a);
    lemma_blueprint_spawns(b);
    assert forall|i: int| 0 <= i < CELLS implies a.walls[i] == b.walls[i] by {
        lemma_cell_at_index(i);
        let p = cell_at_index(i);
        assert(a.walls[cell_index(p)] == b.walls[cell_index(p)]);
    }
    assert(a.walls =~= b.walls);
}

/// Whether the Manhattan distance from `p` to every cell of the board fits
/// an `i32`.
pub open spec fn near_board(p: GridPos) -> bool {
    forall|c: GridPos| #[trigger] in_grid(c) ==> crate::grid_pos::manhattan_spec(p, c) <= i32::MAX
}

/// The distance between a cell near the board and a board cell fits an
/// `i32`, both ways.
pub proof fn lemma_near_board(p: GridPos, c: GridPos)
    requires
        near_board(p) || in_grid(p),
        in_grid(c),
    ensures
        crate::grid_pos::manhattan_spec(p, c) <= i32::MAX,
        crate::grid_pos::manhattan_spec(c, p) <= i32::MAX,
{
}

/// Every board cell is near the board.
pub proof fn lemma_in_grid_near_board(p: GridPos)
    requires
        in_grid(p),
    ensures
        near_board(p),
{
}

/// Whether the Manhattan distance from `p` to every cell of the board fits
/// an `i32` (see [`near_board`]): it suffices to check the four corners.
pub fn is_near_board(p: GridPos) -> (r: bool)
    ensures
        r == near_board(p),
{
    let corners = [
        GridPos::new(0, 0),
        GridPos::new(0, (HEIGHT - 1) as i32),
        GridPos::new((WIDTH - 1) as i32, 0),
        GridPos::new((WIDTH - 1) as i32, (HEIGHT - 1) as i32),
    ];
    let ok = crate::grid_pos::manhattan_fits(p, corners[0]) && crate::grid_pos::manhattan_fits(p, corners[1])
        && crate::grid_pos::manhattan_fits(p, corners[2]) && crate::grid_pos::manhattan_fits(p, corners[3]);
    proof {
        if ok {
            assert forall|c: GridPos| #[trigger] in_grid(c) implies crate::grid_pos::manhattan_spec(p, c) <= i32::MAX by {
                assert(crate::grid_pos::manhattan_spec(p, c) <= crate::grid_pos::manhattan_spec(p, corners[0])
                    || crate::grid_pos::manhattan_spec(p, c) <= crate::grid_pos::manhattan_spec(p, corners[1])
                    || crate::grid_pos::manhattan_spec(p, c) <= crate::grid_pos::manhattan_spec(p, corners[2])
                    || crate::grid_pos::manhattan_spec(p, c) <= crate::grid_pos::manhattan_spec(p, corners[3]));
            }
        } else {
            assert(!near_board(p)) by {
                assert(in_grid(corners[0]) && in_grid(corners[1]) && in_grid(corners[2]) && in_grid(corners[3]));
            }
        }
    }
    ok
}

} // verus!
