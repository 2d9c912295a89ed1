use std::collections::VecDeque;
use vstd::prelude::*;

use crate::commands::{Command, CommandManager, CommandState};
use crate::random::random_usize_in;

verus! {

/// What one square of the snake board shows.
#[derive(Copy, Clone, Debug, PartialEq, Eq, Structural)]
pub enum BoardState {
    Empty,
    Snake,
    Food,
    Wall,
}

impl BoardState {
    /// The character that shows the square when the board is printed.
    pub fn symbol(&self) -> (c: char)
        ensures
            c == match *self {
                BoardState::Empty => ' ',
                BoardState::Snake => '*',
                BoardState::Food => '%',
                BoardState::Wall => '#',
            },
    {
        match self {
            BoardState::Empty => ' ',
            BoardState::Snake => '*',
            BoardState::Food => '%',
            BoardState::Wall => '#',
        }
    }
}

/// A heading of the snake.
#[derive(Copy, Clone, Debug, PartialEq, Eq, Structural)]
pub enum Direction {
    Up,
    Down,
    Left,
    Right,
}

/// The board is 16 by 16 squares, walled on all four edges.
pub open spec fn cleared_cell(i: int, j: int) -> BoardState {
    if i % 15 == 0 || j % 15 == 0 {
        BoardState::Wall
    } else {
        BoardState::Empty
    }
}

/// A square inside the walls.
pub open spec fn interior(p: (usize, usize)) -> bool {
    1 <= p.0 <= 14 && 1 <= p.1 <= 14
}

/// What square `(i, j)` shows for the given snake and food: the food over the
/// snake over the empty board.
pub open spec fn drawn_cell(
    snake: Seq<(usize, usize)>,
    food: Option<(usize, usize)>,
    i: int,
    j: int,
) -> BoardState {
    if food == Some((i as usize, j as usize)) {
        BoardState::Food
    } else if snake.contains((i as usize, j as usize)) {
        BoardState::Snake
    } else {
        cleared_cell(i, j)
    }
}

/// The heading after asking to turn towards `wanted`: a reversal is refused.
pub open spec fn turned(current: Direction, wanted: Direction) -> Direction {
    match wanted {
        Direction::Up => if current == Direction::Down { current } else { wanted },
        Direction::Down => if current == Direction::Up { current } else { wanted },
        Direction::Left => if current == Direction::Right { current } else { wanted },
        Direction::Right => if current == Direction::Left { current } else { wanted },
    }
}

/// The direction that points the other way.
pub open spec fn opposite(d: Direction) -> Direction {
    match d {
        Direction::Up => Direction::Down,
        Direction::Down => Direction::Up,
        Direction::Left => Direction::Right,
        Direction::Right => Direction::Left,
    }
}

/// The snake never turns back on itself: the heading after a turn is never
/// the opposite of the heading before; asking for the reverse keeps the
/// current heading, and any other wish is granted.
pub proof fn lemma_turn_never_reverses(current: Direction, wanted: Direction)
    ensures
        turned(current, wanted) != opposite(current),
        wanted == opposite(current) ==> turned(current, wanted) == current,
        wanted != opposite(current) ==> turned(current, wanted) == wanted,
{
}

/// The square one step from `p` in direction `d`; rows grow downwards.
pub open spec fn stepped(p: (usize, usize), d: Direction) -> (usize, usize) {
    match d {
        Direction::Up => ((p.0 - 1) as usize, p.1),
        Direction::Down => ((p.0 + 1) as usize, p.1),
        Direction::Left => (p.0, (p.1 - 1) as usize),
        Direction::Right => (p.0, (p.1 + 1) as usize),
    }
}

/// The snake a new game starts with, head first.
pub open spec fn initial_snake() -> Seq<(usize, usize)> {
    seq![(4usize, 5usize), (4usize, 4usize)]
}

/// Food that `insert_food` may leave: none (only when it gave up looking), or
/// a square inside the walls that the snake does not cover.
pub open spec fn food_ok(food: Option<(usize, usize)>, snake: Seq<(usize, usize)>) -> bool {
    match food {
        Some(f) => 1 <= f.0 < 15 && 1 <= f.1 < 15 && !snake.contains(f),
        None => true,
    }
}

/// The snake covers every square inside the walls: there is nowhere left to
/// put food.
pub open spec fn interior_full(snake: Seq<(usize, usize)>) -> bool {
    forall|p: (usize, usize)| #[trigger] interior(p) ==> snake.contains(p)
}

/// How many random squares are drawn for the food before the free squares are
/// searched in order instead.
pub const FOOD_DRAWS: u32 = 10_000;

/// `after` is `before` moved one square: the snake turns towards the wanted
/// direction unless that reverses it and steps its head; running into a wall
/// or into the snake starts a new game; reaching the food grows the snake by
/// one square and new food is put down elsewhere (none only when the snake
/// fills the board); otherwise the last square is dropped and the food stays.
pub open spec fn advance_outcome(before: SnakeBoard, after: SnakeBoard) -> bool {
    let d = turned(before.heading(), before.wanted_dir());
    let p = stepped(before.snake_cells()[0], d);
    let moved = seq![p] + before.snake_cells().drop_last();
    let hit = before.cell(p.0 as int, p.1 as int);
    &&& (hit == BoardState::Wall || hit == BoardState::Snake) ==> {
        &&& after.snake_cells() == initial_snake()
        &&& after.food_cell() is Some
        &&& after.wanted_dir() == Direction::Right
        &&& after.heading() == Direction::Right
    }
    &&& hit == BoardState::Food ==> {
        &&& after.snake_cells() == moved.push(moved.last())
        &&& after.food_cell() is None ==> interior_full(after.snake_cells())
        &&& after.wanted_dir() == before.wanted_dir()
        &&& after.heading() == d
    }
    &&& hit == BoardState::Empty ==> {
        &&& after.snake_cells() == moved
        &&& after.food_cell() == before.food_cell()
        &&& after.wanted_dir() == before.wanted_dir()
        &&& after.heading() == d
    }
}

/// A game of snake on a 16 by 16 board.
pub struct SnakeBoard {
    new_dir: Direction,
    player_dir: Direction,
    snake: VecDeque<(usize, usize)>,
    board: Vec<BoardState>,
    food: Option<(usize, usize)>,
}

/// An empty board: walls on the edges, empty inside, row by row.
pub fn clear_board() -> (board: Vec<BoardState>)
    ensures
        board@.len() == 256,
        forall|i: int, j: int| 0 <= i < 16 && 0 <= j < 16 ==> board@[i * 16 + j] == cleared_cell(i, j),
{
    let mut board: Vec<BoardState> = Vec::new();
    let mut i: usize = 0;
    while i < 16
        invariant
            i <= 16,
            board@.len() == i * 16,
            forall|a: int, b: int| 0 <= a < i && 0 <= b < 16 ==> board@[a * 16 + b] == cleared_cell(a, b),
        decreases 16 - i,
    {
        let mut j: usize = 0;
        while j < 16
            invariant
                i < 16,
                j <= 16,
                board@.len() == i * 16 + j,
                forall|a: int, b: int|
                    0 <= a < i && 0 <= b < 16 ==> board@[a * 16 + b] == cleared_cell(a, b),
                forall|b: int| 0 <= b < j ==> board@[i * 16 + b] == cleared_cell(i as int, b),
            decreases 16 - j,
        {
            if i % 15 == 0 || j % 15 == 0 {
                board.push(BoardState::Wall);
            } else {
                board.push(BoardState::Empty);
            }
            j = j + 1;
        }
        i = i + 1;
    }
    board
}

/// Whether `snake` covers `p`.
fn covers(snake: &VecDeque<(usize, usize)>, p: (usize, usize)) -> (b: bool)
    ensures
        b == snake@.contains(p),
{
    let mut i: usize = 0;
    while i < snake.len()
        invariant
            i <= snake@.len(),
            forall|t: int| 0 <= t < i ==> snake@[t] != p,
        decreases snake@.len() - i,
    {
        let q = snake[i];
        if q.0 == p.0 && q.1 == p.1 {
            return true;
        }
        i = i + 1;
    }
    false
}

impl SnakeBoard {
    /// The board shows the snake and the food, the snake is non-empty and
    /// inside the walls, and the food is inside the walls and off the snake.
    pub closed spec fn wf(&self) -> bool {
        &&& self.board@.len() == 256
        &&& self.snake@.len() > 0
        &&& forall|t: int| 0 <= t < self.snake@.len() ==> interior(#[trigger] self.snake@[t])
        &&& food_ok(self.food, self.snake@)
        &&& forall|i: int, j: int|
            0 <= i < 16 && 0 <= j < 16 ==> #[trigger] self.board@[i * 16 + j] == drawn_cell(
                self.snake@,
                self.food,
                i,
                j,
            )
    }

    /// The squares of the snake, head first.
    pub closed spec fn snake_cells(&self) -> Seq<(usize, usize)> {
        self.snake@
    }

    /// Where the food is, if anywhere.
    pub closed spec fn food_cell(&self) -> Option<(usize, usize)> {
        self.food
    }

    /// The direction the snake moved in last.
    pub closed spec fn heading(&self) -> Direction {
        self.player_dir
    }

    /// This board, asked to turn towards `d`.
    pub closed spec fn with_wanted(self, d: Direction) -> SnakeBoard {
        SnakeBoard { new_dir: d, ..self }
    }

    /// The direction the snake is asked to turn towards.
    pub closed spec fn wanted_dir(&self) -> Direction {
        self.new_dir
    }

    /// What square `(i, j)` of the board shows.
    pub closed spec fn cell(&self, i: int, j: int) -> BoardState {
        self.board@[i * 16 + j]
    }

    /// A new game: the starting snake heading right, and food somewhere free.
    pub fn new() -> (b: Self)
        ensures
            b.wf(),
            b.snake_cells() == initial_snake(),
            b.food_cell() is Some,
            b.wanted_dir() == Direction::Right,
            b.heading() == Direction::Right,
    {
        let mut snake: VecDeque<(usize, usize)> = VecDeque::new();
        snake.push_back((4, 5));
        snake.push_back((4, 4));
        let mut ret = SnakeBoard {
            new_dir: Direction::Right,
            player_dir: Direction::Right,
            snake,
            board: clear_board(),
            food: None,
        };
        assert(ret.snake@ =~= initial_snake());
        ret.insert_food();
        assert(interior((1usize, 1usize)) && !initial_snake().contains((1usize, 1usize)));
        ret.update_board();
        ret
    }

    /// Puts the food on a random square inside the walls that the snake does
    /// not cover, drawing again while the square drawn is covered. After
    /// `FOOD_DRAWS` misses it takes the first free square, row by row; it
    /// leaves no food only when the snake covers every square.
    fn insert_food(&mut self)
        ensures
            food_ok(final(self).food, final(self).snake@),
            final(self).food is None ==> interior_full(final(self).snake@),
            final(self).snake@ == old(self).snake@,
            final(self).board@ == old(self).board@,
            final(self).new_dir == old(self).new_dir,
            final(self).player_dir == old(self).player_dir,
    {
        let mut draws: u32 = 0;
        while draws < FOOD_DRAWS
            invariant
                self.snake@ == old(self).snake@,
                self.board@ == old(self).board@,
                self.new_dir == old(self).new_dir,
                self.player_dir == old(self).player_dir,
            decreases FOOD_DRAWS - draws,
        {
            draws = draws + 1;
            let test_food = (random_usize_in(1, 15), random_usize_in(1, 15));
            if !covers(&self.snake, test_food) {
                self.food = Some(test_food);
                return;
            }
        }
        let mut i: usize = 1;
        while i < 15
            invariant
                1 <= i <= 15,
                self.snake@ == old(self).snake@,
                self.board@ == old(self).board@,
                self.new_dir == old(self).new_dir,
                self.player_dir == old(self).player_dir,
                forall|p: (usize, usize)|
                    #[trigger] interior(p) && p.0 < i ==> self.snake@.contains(p),
            decreases 15 - i,
        {
            let mut j: usize = 1;
            while j < 15
                invariant
                    1 <= i < 15,
                    1 <= j <= 15,
                    self.snake@ == old(self).snake@,
                    self.board@ == old(self).board@,
                    self.new_dir == old(self).new_dir,
                    self.player_dir == old(self).player_dir,
                    forall|p: (usize, usize)|
                        #[trigger] interior(p) && p.0 < i ==> self.snake@.contains(p),
                    forall|p: (usize, usize)|
                        #[trigger] interior(p) && p.0 == i && p.1 < j ==> self.snake@.contains(p),
                decreases 15 - j,
            {
                if !covers(&self.snake, (i, j)) {
                    self.food = Some((i, j));
                    return;
                }
                j = j + 1;
            }
            i = i + 1;
        }
        self.food = None;
    }

    /// Redraws the board from the snake and the food.
    fn update_board(&mut self)
        requires
            forall|t: int|
                0 <= t < old(self).snake@.len() ==> (#[trigger] old(self).snake@[t]).0 < 16
                    && old(self).snake@[t].1 < 16,
            old(self).food matches Some(f) ==> f.0 < 16 && f.1 < 16,
        ensures
            final(self).board@.len() == 256,
            forall|i: int, j: int|
                0 <= i < 16 && 0 <= j < 16 ==> #[trigger] final(self).board@[i * 16 + j]
                    == drawn_cell(final(self).snake@, final(self).food, i, j),
            final(self).snake@ == old(self).snake@,
            final(self).food == old(self).food,
            final(self).new_dir == old(self).new_dir,
            final(self).player_dir == old(self).player_dir,
    {
        let mut board = clear_board();
        let n = self.snake.len();
        let mut t: usize = 0;
        while t < n
            invariant
                n == self.snake@.len(),
                t <= n,
                forall|u: int|
                    0 <= u < n ==> (#[trigger] self.snake@[u]).0 < 16 && self.snake@[u].1 < 16,
                self.food matches Some(f) ==> f.0 < 16 && f.1 < 16,
                board@.len() == 256,
                forall|i: int, j: int|
                    0 <= i < 16 && 0 <= j < 16 ==> #[trigger] board@[i * 16 + j] == (if self.snake@.take(
                        t as int,
                    ).contains((i as usize, j as usize)) {
                        BoardState::Snake
                    } else {
                        cleared_cell(i, j)
                    }),
            decreases n - t,
        {
            let pos = self.snake[t];
            proof {
                let s1 = self.snake@.take(t + 1);
                let s0 = self.snake@.take(t as int);
                assert(s1 =~= s0.push(pos));
                assert forall|q: (usize, usize)| #[trigger] s1.contains(q) <==> (s0.contains(q) || q
                    == pos) by {
                    if s0.contains(q) {
                        let u = choose|u: int| 0 <= u < s0.len() && s0[u] == q;
                        assert(s1[u] == s0[u]);
                    }
                    if s1.contains(q) && q != pos {
                        let u = choose|u: int| 0 <= u < s1.len() && s1[u] == q;
                        assert(s0[u] == s1[u]);
                    }
                    assert(s1[t as int] == pos);
                }
            }
            board.set(pos.0 * 16 + pos.1, BoardState::Snake);
            t = t + 1;
        }
        if let Some(food) = self.food {
            board.set(food.0 * 16 + food.1, BoardState::Food);
        }
        proof {
            assert(self.snake@.take(n as int) =~= self.snake@);
        }
        self.board = board;
    }

    /// The number of squares of the snake.
    pub fn snake_len(&self) -> (n: usize)
        ensures
            n == self.snake_cells().len(),
    {
        self.snake.len()
    }

    /// Square `i` of the snake, counting from the head.
    pub fn snake_at(&self, i: usize) -> (p: (usize, usize))
        requires
            i < self.snake_cells().len(),
        ensures
            p == self.snake_cells()[i as int],
    {
        self.snake[i]
    }

    /// Where the food is, if anywhere.
    pub fn food(&self) -> (f: Option<(usize, usize)>)
        ensures
            f == self.food_cell(),
    {
        self.food
    }

    /// The direction the snake moved in last.
    pub fn player_dir(&self) -> (d: Direction)
        ensures
            d == self.heading(),
    {
        self.player_dir
    }

    /// The direction the snake is asked to turn towards.
    pub fn new_dir(&self) -> (d: Direction)
        ensures
            d == self.wanted_dir(),
    {
        self.new_dir
    }

    /// Asks the snake to turn towards `d` at its next move.
    pub fn set_new_dir(&mut self, d: Direction)
        requires
            old(self).wf(),
        ensures
            final(self).wf(),
            final(self).wanted_dir() == d,
            *final(self) == old(self).with_wanted(d),
    {
        self.new_dir = d;
    }

    /// What square `(i, j)` of the board shows.
    pub fn cell_at(&self, i: usize, j: usize) -> (s: BoardState)
        requires
            self.wf(),
            i < 16,
            j < 16,
        ensures
            s == self.cell(i as int, j as int),
            s == drawn_cell(self.snake_cells(), self.food_cell(), i as int, j as int),
    {
        self.board[i * 16 + j]
    }

    /// Moves the snake one square: turns towards `new_dir` unless that
    /// reverses it, steps the head, and drops the last square. Running into a
    /// wall or into the snake starts a new game; reaching the food grows the
    /// snake by one square and puts down new food.
    pub fn advance(&mut self)
        requires
            old(self).wf(),
        ensures
            final(self).wf(),
            advance_outcome(*old(self), *final(self)),
    {
        let mut current_pos = self.snake[0];
        self.player_dir = match self.new_dir {
            Direction::Up => match self.player_dir {
                Direction::Down => self.player_dir,
                _ => self.new_dir,
            },
            Direction::Down => match self.player_dir {
                Direction::Up => self.player_dir,
                _ => self.new_dir,
            },
            Direction::Left => match self.player_dir {
                Direction::Right => self.player_dir,
                _ => self.new_dir,
            },
            Direction::Right => match self.player_dir {
                Direction::Left => self.player_dir,
                _ => self.new_dir,
            },
        };
        assert(interior(self.snake@[0]));
        match self.player_dir {
            Direction::Up => current_pos.0 = current_pos.0 - 1,
            Direction::Down => current_pos.0 = current_pos.0 + 1,
            Direction::Left => current_pos.1 = current_pos.1 - 1,
            Direction::Right => current_pos.1 = current_pos.1 + 1,
        }
        let ghost old_snake = self.snake@;
        self.snake.push_front(current_pos);
        self.snake.pop_back();
        assert(self.snake@ =~= seq![current_pos] + old_snake.drop_last());
        let hit = self.board[current_pos.0 * 16 + current_pos.1];
        match hit {
            BoardState::Wall | BoardState::Snake => {
                *self = Self::new();
                return ;
            },
            BoardState::Food => {
                let last = self.snake[self.snake.len() - 1];
                self.snake.push_back(last);
                proof {
                    assert forall|t: int| 0 <= t < self.snake@.len() implies interior(
                        #[trigger] self.snake@[t],
                    ) by {
                        if t >= 1 && t < old_snake.len() {
                            assert(self.snake@[t] == old_snake[t - 1]);
                        } else if t >= old_snake.len() {
                            assert(self.snake@[t] == self.snake@[old_snake.len() - 1]);
                            if old_snake.len() > 1 {
                                assert(self.snake@[old_snake.len() - 1] == old_snake[old_snake.len() - 2]);
                            }
                        }
                    }
                }
                self.insert_food();
            },
            BoardState::Empty => {
                proof {
                    assert forall|t: int| 0 <= t < self.snake@.len() implies interior(
                        #[trigger] self.snake@[t],
                    ) by {
                        if t >= 1 {
                            assert(self.snake@[t] == old_snake[t - 1]);
                        }
                    }
                    if let Some(f) = self.food {
                        if self.snake@.contains(f) {
                            let u = choose|u: int| 0 <= u < self.snake@.len() && self.snake@[u] == f;
                            if u >= 1 {
                                assert(old_snake[u - 1] == f);
                            }
                        }
                    }
                }
            },
        }
        self.update_board();
    }
}

/// A move never reverses the snake. Unless the step runs into a wall or into
/// the snake, the snake goes on in the direction it was asked for, or straight
/// on when that would reverse it: its head moves one square that way, and its
/// heading is never the opposite of the one before. Running into a wall or
/// into the snake starts a new game heading right.
pub proof fn lemma_advance_never_reverses(before: SnakeBoard, after: SnakeBoard)
    requires
        before.wf(),
        advance_outcome(before, after),
    ensures
        ({
            let d = if before.wanted_dir() == opposite(before.heading()) {
                before.heading()
            } else {
                before.wanted_dir()
            };
            let p = stepped(before.snake_cells()[0], d);
            let hit = before.cell(p.0 as int, p.1 as int);
            &&& (hit == BoardState::Empty || hit == BoardState::Food) ==> {
                &&& after.heading() == d
                &&& after.heading() != opposite(before.heading())
                &&& after.snake_cells()[0] == p
            }
            &&& (hit == BoardState::Wall || hit == BoardState::Snake) ==> {
                &&& after.snake_cells() == initial_snake()
                &&& after.heading() == Direction::Right
            }
        }),
{
    lemma_turn_never_reverses(before.heading(), before.wanted_dir());
}

/// Whether the command is bound and active.
pub open spec fn command_on(m: Map<Command, CommandState>, c: Command) -> bool {
    m.contains_key(c) && m[c].state
}

/// The direction the snake keys ask for, if any; up wins over down, down over
/// left, left over right.
pub open spec fn asked_direction(m: Map<Command, CommandState>) -> Option<Direction> {
    if command_on(m, Command::SnakeMoveUp) {
        Some(Direction::Up)
    } else if command_on(m, Command::SnakeMoveDown) {
        Some(Direction::Down)
    } else if command_on(m, Command::SnakeMoveLeft) {
        Some(Direction::Left)
    } else if command_on(m, Command::SnakeMoveRight) {
        Some(Direction::Right)
    } else {
        None
    }
}

/// One frame of the snake game, while it is switched on: the snake keys set
/// the wanted direction, and the snake moves once more than 200 milliseconds
/// have passed since it last moved. Returns whether it moved.
pub fn snake_game(board: &mut SnakeBoard, input: &CommandManager, millis_since_move: u128) -> (moved:
    bool)
    requires
        old(board).wf(),
    ensures
        final(board).wf(),
        !command_on(input.bindings(), Command::DebugToggleSnake) ==> !moved && *final(board) == *old(
            board,
        ),
        command_on(input.bindings(), Command::DebugToggleSnake) ==> moved == (millis_since_move
            > 200),
        ({
            let asked = match asked_direction(input.bindings()) {
                Some(d) => old(board).with_wanted(d),
                None => *old(board),
            };
            &&& command_on(input.bindings(), Command::DebugToggleSnake) && !moved ==> *final(board)
                == asked
            &&& moved ==> advance_outcome(asked, *final(board))
        }),
{
    if !input.get(Command::DebugToggleSnake) {
        return false;
    }
    if input.get(Command::SnakeMoveUp) {
        board.set_new_dir(Direction::Up);
    } else if input.get(Command::SnakeMoveDown) {
        board.set_new_dir(Direction::Down);
    } else if input.get(Command::SnakeMoveLeft) {
        board.set_new_dir(Direction::Left);
    } else if input.get(Command::SnakeMoveRight) {
        board.set_new_dir(Direction::Right);
    }
    if millis_since_move > 200 {
        board.advance();
        true
    } else {
        false
    }
}

} // verus!
