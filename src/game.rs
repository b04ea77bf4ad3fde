//! The game state machine: a snake on a bounded board that moves one cell per
//! tick, grows by eating food, and ends on hitting a wall or itself.

use crate::food::{choose_food, covers_board, draw_samples, is_free, lemma_food_choice};
use crate::geometry::{in_bounds, occupies, shift, shifted, Direction, Point};
use vstd::prelude::*;

verus! {

/// A game as a mathematical value.
pub struct GameView {
    pub width: nat,
    pub height: nat,
    /// The occupied cells, head first.
    pub snake: Seq<Point>,
    pub direction: Direction,
    pub food: Point,
    pub score: nat,
    pub game_over: bool,
}

impl GameView {
    /// The invariant of every game: a board of at least one cell whose cell
    /// count fits a `usize`; a non-empty snake of distinct cells on the
    /// board; a score below the snake's length; food on the board, and off
    /// the snake unless the game ended with the snake covering the board.
    pub open spec fn wf(self) -> bool {
        &&& self.width >= 1
        &&& self.height >= 1
        &&& self.width * self.height <= usize::MAX
        &&& self.snake.len() >= 1
        &&& forall|i: int|
            0 <= i < self.snake.len() ==> in_bounds(#[trigger] self.snake[i], self.width, self.height)
        &&& self.snake.no_duplicates()
        &&& self.score < self.snake.len()
        &&& in_bounds(self.food, self.width, self.height)
        &&& self.snake.contains(self.food) ==> self.game_over && covers_board(
            self.snake,
            self.width,
            self.height,
        )
    }

    /// Where the head goes on the next tick, or `None` where it would leave
    /// the board.
    pub open spec fn next_head(self) -> Option<Point> {
        shifted(self.snake[0], self.direction, self.width, self.height)
    }

    /// Whether the next tick ends the game: the head would leave the board or
    /// enter a cell of the body as it stands before the move, the tail
    /// included.
    pub open spec fn collides(self) -> bool {
        match self.next_head() {
            None => true,
            Some(h) => self.snake.contains(h),
        }
    }

    /// Whether the next tick moves the head onto the food.
    pub open spec fn eats(self) -> bool {
        !self.collides() && self.next_head() == Some(self.food)
    }

    /// The snake after a tick that moves without eating.
    pub open spec fn moved(self) -> Seq<Point> {
        seq![self.next_head()->Some_0] + self.snake.drop_last()
    }

    /// The snake after a tick that eats.
    pub open spec fn grown(self) -> Seq<Point> {
        seq![self.next_head()->Some_0] + self.snake
    }
}

/// Every game reached from `SnakeGame::new` or `SnakeGame::from_parts`
/// through `update` and `change_direction` keeps `wf`; so in each of them the
/// snake has at least one segment and, while the game is live, no two of its
/// cells are equal.
pub proof fn lemma_reachable_snake(g: GameView)
    requires
        g.wf(),
    ensures
        g.snake.len() >= 1,
        !g.game_over ==> g.snake.no_duplicates(),
{
}

/// A snake game on a board of `width` columns and `height` rows.
pub struct SnakeGame {
    width: usize,
    height: usize,
    snake: Vec<Point>,
    direction: Direction,
    food: Point,
    score: usize,
    game_over: bool,
}

impl View for SnakeGame {
    type V = GameView;

    closed spec fn view(&self) -> GameView {
        GameView {
            width: self.width as nat,
            height: self.height as nat,
            snake: self.snake@,
            direction: self.direction,
            food: self.food,
            score: self.score as nat,
            game_over: self.game_over,
        }
    }
}

/// A new head in front of a body that does not hold it keeps the cells
/// distinct and on the board.
proof fn lemma_push_head(h: Point, body: Seq<Point>, width: nat, height: nat)
    requires
        body.no_duplicates(),
        !body.contains(h),
        in_bounds(h, width, height),
        forall|i: int| 0 <= i < body.len() ==> in_bounds(#[trigger] body[i], width, height),
    ensures
        (seq![h] + body).no_duplicates(),
        forall|i: int|
            0 <= i < (seq![h] + body).len() ==> in_bounds(#[trigger] (seq![h] + body)[i], width, height),
{
    let s = seq![h] + body;
    assert forall|i: int, j: int| 0 <= i < s.len() && 0 <= j < s.len() && i != j implies s[i] != s[j] by {
        if i == 0 {
            assert(s[j] == body[j - 1]);
        } else if j == 0 {
            assert(s[i] == body[i - 1]);
        } else {
            assert(s[i] == body[i - 1] && s[j] == body[j - 1]);
        }
    }
    assert forall|i: int| 0 <= i < s.len() implies in_bounds(#[trigger] s[i], width, height) by {
        if i > 0 {
            assert(s[i] == body[i - 1]);
        }
    }
}

impl SnakeGame {
    /// Advances the game by one tick. A finished game stays as it is. A step
    /// into a wall or into the body (whose tail still counts, as it stands
    /// before the move) ends the game and changes nothing else. A step onto
    /// the food grows the snake by its new head, adds one to the score and
    /// places new food on a free cell; where the grown snake covers the whole
    /// board no cell is free, and the game ends with the food left in place.
    /// Any other step adds the new head and drops the tail.
    pub fn update(&mut self)
        requires
            old(self)@.wf(),
        ensures
            final(self)@.wf(),
            old(self)@.game_over ==> final(self)@ == old(self)@,
            !old(self)@.game_over && old(self)@.collides() ==> final(self)@ == (GameView {
                game_over: true,
                ..old(self)@
            }),
            !old(self)@.game_over && !old(self)@.collides() && !old(self)@.eats() ==> final(self)@
                == (GameView { snake: old(self)@.moved(), ..old(self)@ }),
            !old(self)@.game_over && old(self)@.eats() ==> {
                &&& final(self)@ == (GameView {
                    snake: old(self)@.grown(),
                    score: old(self)@.score + 1,
                    food: final(self)@.food,
                    game_over: final(self)@.game_over,
                    ..old(self)@
                })
                &&& final(self)@.game_over == covers_board(
                    old(self)@.grown(),
                    old(self)@.width,
                    old(self)@.height,
                )
                &&& final(self)@.game_over ==> final(self)@.food == old(self)@.food
                &&& !final(self)@.game_over ==> is_free(
                    final(self)@.snake,
                    final(self)@.width,
                    final(self)@.height,
                    final(self)@.food,
                )
            },
            // a move that eats nothing keeps the length and puts the head one step on
            !old(self)@.game_over && !old(self)@.collides() && !old(self)@.eats()
                ==> final(self)@.snake.len() == old(self)@.snake.len()
                && final(self)@.snake[0] == old(self)@.next_head()->Some_0,
            // a move that eats adds one segment and one point
            !old(self)@.game_over && old(self)@.eats()
                ==> final(self)@.snake.len() == old(self)@.snake.len() + 1
                && final(self)@.score == old(self)@.score + 1,
            // food is off the snake whenever the snake leaves a cell free
            !covers_board(final(self)@.snake, final(self)@.width, final(self)@.height)
                ==> !final(self)@.snake.contains(final(self)@.food),
            // a finished game keeps its snake, food and score
            old(self)@.game_over ==> final(self)@.snake == old(self)@.snake
                && final(self)@.food == old(self)@.food && final(self)@.score == old(self)@.score,
    {
        if self.game_over {
            return;
        }
        let head = self.snake[0];
        let new_head = match shift(head, self.direction, self.width, self.height) {
            None => {
                self.game_over = true;
                return;
            },
            Some(p) => p,
        };
        if occupies(&self.snake, new_head) {
            self.game_over = true;
            return;
        }
        let ghost w = self.width as nat;
        let ghost h = self.height as nat;
        let ghost body = self.snake@;
        proof {
            lemma_push_head(new_head, body, w, h);
        }
        if new_head == self.food {
            self.snake.insert(0, new_head);
            assert(self.snake@ =~= seq![new_head] + body);
            let grown_len = self.snake.len();
            assert(self.score < grown_len);
            self.score = self.score + 1;
            self.generate_food();
        } else {
            self.snake.insert(0, new_head);
            self.snake.pop();
            let ghost moved = seq![new_head] + body.drop_last();
            assert(self.snake@ =~= moved);
            assert(moved.no_duplicates()) by {
                assert forall|i: int, j: int|
                    0 <= i < moved.len() && 0 <= j < moved.len() && i != j implies moved[i]
                    != moved[j] by {
                    assert(moved[i] == (seq![new_head] + body)[i]);
                    assert(moved[j] == (seq![new_head] + body)[j]);
                }
            }
            assert forall|i: int| 0 <= i < moved.len() implies in_bounds(#[trigger] moved[i], w, h) by {
                assert(moved[i] == (seq![new_head] + body)[i]);
            }
            assert(!moved.contains(self.food)) by {
                if moved.contains(self.food) {
                    let k = choose|k: int| 0 <= k < moved.len() && moved[k] == self.food;
                    assert(moved[k] == (seq![new_head] + body)[k]);
                    assert(body[k - 1] == self.food);
                }
            }
        }
    }

    /// Moves the food to a free cell, drawn at random; where the snake covers
    /// the board, no cell is free and the game ends instead.
    fn generate_food(&mut self)
        requires
            old(self)@.width >= 1,
            old(self)@.height >= 1,
            old(self)@.width * old(self)@.height <= usize::MAX,
        ensures
            final(self)@ == (GameView {
                food: final(self)@.food,
                game_over: final(self)@.game_over,
                ..old(self)@
            }),
            final(self)@.game_over == (old(self)@.game_over || covers_board(
                old(self)@.snake,
                old(self)@.width,
                old(self)@.height,
            )),
            covers_board(old(self)@.snake, old(self)@.width, old(self)@.height) ==> final(self)@.food
                == old(self)@.food,
            !covers_board(old(self)@.snake, old(self)@.width, old(self)@.height) ==> is_free(
                old(self)@.snake,
                old(self)@.width,
                old(self)@.height,
                final(self)@.food,
            ),
    {
        let samples = draw_samples(self.width, self.height);
        proof {
            lemma_food_choice(self.snake@, self.width as nat, self.height as nat, samples@);
        }
        match choose_food(&self.snake, self.width, self.height, &samples) {
            Some(p) => {
                self.food = p;
            },
            None => {
                self.game_over = true;
            },
        }
    }

    /// Turns the snake towards `new_direction`, unless that is the exact
    /// opposite of its current direction: such a request is ignored.
    pub fn change_direction(&mut self, new_direction: Direction)
        ensures
            new_direction == old(self)@.direction.opposite_spec() ==> final(self)@ == old(self)@,
            new_direction != old(self)@.direction.opposite_spec() ==> final(self)@ == (GameView {
                direction: new_direction,
                ..old(self)@
            }),
            final(self)@.wf() == old(self)@.wf(),
    {
        if new_direction == self.direction.opposite() {
            return;
        }
        self.direction = new_direction;
    }

    /// A fresh game on a board of `width` by `height` cells: a snake of one
    /// segment in the middle of the board heading right, score 0, and food on
    /// a random free cell. The board must have room for the snake and the food.
    pub fn new(width: usize, height: usize) -> (r: SnakeGame)
        requires
            width >= 1,
            height >= 1,
            width * height >= 2,
            width * height <= usize::MAX,
        ensures
            r@.wf(),
            r@.width == width,
            r@.height == height,
            r@.snake == seq![Point { x: width / 2, y: height / 2 }],
            r@.direction == Direction::Right,
            r@.score == 0,
            !r@.game_over,
            is_free(r@.snake, r@.width, r@.height, r@.food),
    {
        let start = Point { x: width / 2, y: height / 2 };
        let mut snake: Vec<Point> = Vec::new();
        snake.push(start);
        let mut game = SnakeGame {
            width,
            height,
            snake,
            direction: Direction::Right,
            food: start,
            score: 0,
            game_over: false,
        };
        proof {
            let w = width as nat;
            let h = height as nat;
            assert(w >= 2 || h >= 2) by (nonlinear_arith)
                requires
                    w >= 1,
                    h >= 1,
                    w * h >= 2,
            ;
            let other = if w >= 2 {
                Point { x: if start.x == 0 { 1 } else { 0 }, y: start.y }
            } else {
                Point { x: start.x, y: if start.y == 0 { 1 } else { 0 } }
            };
            assert(in_bounds(other, w, h) && !game.snake@.contains(other));
            assert(game@.snake.no_duplicates());
        }
        game.generate_food();
        game
    }

    /// A live game with score 0 in the given position, when that position is
    /// a valid one: the board and the snake as the invariant asks, the food on
    /// the board and off the snake. Otherwise `None`.
    pub fn from_parts(
        width: usize,
        height: usize,
        snake: Vec<Point>,
        direction: Direction,
        food: Point,
    ) -> (r: Option<SnakeGame>)
        ensures
            r is Some <==> (GameView {
                width: width as nat,
                height: height as nat,
                snake: snake@,
                direction,
                food,
                score: 0,
                game_over: false,
            }).wf(),
            r matches Some(g) ==> g@ == (GameView {
                width: width as nat,
                height: height as nat,
                snake: snake@,
                direction,
                food,
                score: 0,
                game_over: false,
            }),
    {
        if width == 0 || height == 0 || width.checked_mul(height).is_none() {
            return None;
        }
        if snake.len() == 0 || !all_on_board(&snake, width, height) || !all_distinct(&snake) {
            return None;
        }
        if food.x >= width || food.y >= height || occupies(&snake, food) {
            return None;
        }
        Some(SnakeGame { width, height, snake, direction, food, score: 0, game_over: false })
    }

    /// The occupied cells, head first.
    pub fn snake(&self) -> (r: &Vec<Point>)
        ensures
            r@ == self@.snake,
    {
        &self.snake
    }

    pub fn food(&self) -> (r: Point)
        ensures
            r == self@.food,
    {
        self.food
    }

    pub fn score(&self) -> (r: usize)
        ensures
            r == self@.score,
    {
        self.score
    }

    pub fn is_game_over(&self) -> (r: bool)
        ensures
            r == self@.game_over,
    {
        self.game_over
    }

    pub fn direction(&self) -> (r: Direction)
        ensures
            r == self@.direction,
    {
        self.direction
    }

    pub fn width(&self) -> (r: usize)
        ensures
            r == self@.width,
    {
        self.width
    }

    pub fn height(&self) -> (r: usize)
        ensures
            r == self@.height,
    {
        self.height
    }
}

/// Whether every one of `cells` lies on the board.
fn all_on_board(cells: &Vec<Point>, width: usize, height: usize) -> (r: bool)
    ensures
        r == forall|i: int|
            0 <= i < cells@.len() ==> in_bounds(#[trigger] cells@[i], width as nat, height as nat),
{
    let mut i: usize = 0;
    while i < cells.len()
        invariant
            i <= cells@.len(),
            forall|j: int| 0 <= j < i ==> in_bounds(#[trigger] cells@[j], width as nat, height as nat),
        decreases cells@.len() - i,
    {
        if cells[i].x >= width || cells[i].y >= height {
            return false;
        }
        i = i + 1;
    }
    true
}

/// Whether no cell appears twice in `cells`.
fn all_distinct(cells: &Vec<Point>) -> (r: bool)
    ensures
        r == cells@.no_duplicates(),
{
    let mut i: usize = 0;
    while i < cells.len()
        invariant
            i <= cells@.len(),
            forall|a: int, b: int| 0 <= a < i && 0 <= b < i && a != b ==> cells@[a] != cells@[b],
        decreases cells@.len() - i,
    {
        let mut j: usize = 0;
        while j < i
            invariant
                i < cells@.len(),
                j <= i,
                forall|b: int| 0 <= b < j ==> cells@[b] != cells@[i as int],
            decreases i - j,
        {
            if cells[j] == cells[i] {
                return false;
            }
            j = j + 1;
        }
        i = i + 1;
    }
    true
}

} // verus!
