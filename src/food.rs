//! Food placement: rejection sampling over random cells, with a full-board
//! scan behind it so that placement always ends.

use crate::geometry::{in_bounds, occupies, Point};
use rand::Rng;
use vstd::arithmetic::div_mod::lemma_fundamental_div_mod_converse;
use vstd::prelude::*;

verus! {

/// How many random cells are tried before the board is scanned in order.
pub const FOOD_SAMPLES: usize = 32;

/// Whether `p` is a cell of the board that no segment of `snake` covers.
pub open spec fn is_free(snake: Seq<Point>, width: nat, height: nat, p: Point) -> bool {
    in_bounds(p, width, height) && !snake.contains(p)
}

/// Whether `snake` covers every cell of the board.
pub open spec fn covers_board(snake: Seq<Point>, width: nat, height: nat) -> bool {
    forall|p: Point| in_bounds(p, width, height) ==> #[trigger] snake.contains(p)
}

/// The first of `candidates` that is a free cell, if any is.
pub open spec fn first_free(snake: Seq<Point>, width: nat, height: nat, candidates: Seq<Point>) -> Option<Point>
    decreases candidates.len(),
{
    if candidates.len() == 0 {
        None
    } else if is_free(snake, width, height, candidates[0]) {
        Some(candidates[0])
    } else {
        first_free(snake, width, height, candidates.drop_first())
    }
}

/// Every cell of the board, row by row, each row from left to right.
pub open spec fn board_cells(width: nat, height: nat) -> Seq<Point> {
    Seq::new(
        width * height,
        |k: int| Point { x: (k % (width as int)) as usize, y: (k / (width as int)) as usize },
    )
}

/// The cell that food goes to after `samples` were drawn: the first free
/// sample, else the first free cell of the board in row order, else none.
pub open spec fn food_choice(snake: Seq<Point>, width: nat, height: nat, samples: Seq<Point>) -> Option<Point> {
    first_free(snake, width, height, samples + board_cells(width, height))
}

/// A choice of `first_free` is a free cell among the candidates, and there is
/// none only where no candidate is free.
pub proof fn lemma_first_free(snake: Seq<Point>, width: nat, height: nat, candidates: Seq<Point>)
    ensures
        first_free(snake, width, height, candidates) matches Some(p) ==> is_free(snake, width, height, p)
            && candidates.contains(p),
        first_free(snake, width, height, candidates) is None ==> forall|i: int|
            0 <= i < candidates.len() ==> !is_free(snake, width, height, #[trigger] candidates[i]),
    decreases candidates.len(),
{
    if candidates.len() > 0 {
        let rest = candidates.drop_first();
        lemma_first_free(snake, width, height, rest);
        if !is_free(snake, width, height, candidates[0]) {
            if let Some(p) = first_free(snake, width, height, rest) {
                let k = choose|k: int| 0 <= k < rest.len() && rest[k] == p;
                assert(candidates[k + 1] == p);
            } else {
                assert forall|i: int| 0 <= i < candidates.len() implies !is_free(
                    snake,
                    width,
                    height,
                    #[trigger] candidates[i],
                ) by {
                    if i > 0 {
                        assert(candidates[i] == rest[i - 1]);
                    }
                }
            }
        }
    }
}

/// Every cell of a board with at least one column appears in `board_cells`.
pub proof fn lemma_board_cells_complete(width: nat, height: nat, p: Point)
    requires
        width >= 1,
        in_bounds(p, width, height),
    ensures
        board_cells(width, height).contains(p),
{
    let k = p.y * width + p.x;
    assert(0 <= k < width * height) by (nonlinear_arith)
        requires
            p.x < width,
            p.y < height,
            k == p.y * width + p.x,
    ;
    lemma_fundamental_div_mod_converse(k as int, width as int, p.y as int, p.x as int);
    assert(board_cells(width, height)[k as int] == p);
}

/// Food placement always yields a free cell, and yields none only where the
/// snake covers the whole board.
pub proof fn lemma_food_choice(snake: Seq<Point>, width: nat, height: nat, samples: Seq<Point>)
    requires
        width >= 1,
    ensures
        food_choice(snake, width, height, samples) matches Some(p) ==> is_free(snake, width, height, p),
        food_choice(snake, width, height, samples) is None <==> covers_board(snake, width, height),
{
    let all = samples + board_cells(width, height);
    lemma_first_free(snake, width, height, all);
    if first_free(snake, width, height, all) is None {
        assert forall|p: Point| in_bounds(p, width, height) implies #[trigger] snake.contains(p) by {
            lemma_board_cells_complete(width, height, p);
            let k = choose|k: int| 0 <= k < board_cells(width, height).len() && board_cells(width, height)[k] == p;
            assert(all[samples.len() + k] == p);
        }
    } else {
        let p = first_free(snake, width, height, all).unwrap();
        assert(!snake.contains(p));
    }
}

/// Relies on `rand::thread_rng` and `Rng::gen_range`: a number drawn from
/// `[0, bound)`; `gen_range` panics only on an empty range.
#[verifier::external_body]
fn random_below(bound: usize) -> (r: usize)
    requires
        bound > 0,
    ensures
        r < bound,
{
    rand::thread_rng().gen_range(0..bound)
}

/// Draws `FOOD_SAMPLES` random cells of the board.
pub fn draw_samples(width: usize, height: usize) -> (r: Vec<Point>)
    requires
        width >= 1,
        height >= 1,
    ensures
        r@.len() == FOOD_SAMPLES,
        forall|i: int| 0 <= i < r@.len() ==> in_bounds(#[trigger] r@[i], width as nat, height as nat),
{
    let mut samples: Vec<Point> = Vec::new();
    let mut i: usize = 0;
    while i < FOOD_SAMPLES
        invariant
            i <= FOOD_SAMPLES,
            samples@.len() == i,
            width >= 1,
            height >= 1,
            forall|j: int| 0 <= j < samples@.len() ==> in_bounds(#[trigger] samples@[j], width as nat, height as nat),
        decreases FOOD_SAMPLES - i,
    {
        let x = random_below(width);
        let y = random_below(height);
        samples.push(Point { x, y });
        i = i + 1;
    }
    samples
}

/// Picks where food goes given the drawn `samples`: the first sample that is
/// a free cell, else the first free cell in row order, else `None` when the
/// snake covers the board.
pub fn choose_food(snake: &Vec<Point>, width: usize, height: usize, samples: &Vec<Point>) -> (r: Option<Point>)
    requires
        width >= 1,
        width * height <= usize::MAX,
    ensures
        r == food_choice(snake@, width as nat, height as nat, samples@),
{
    let ghost w = width as nat;
    let ghost h = height as nat;
    let ghost all = samples@ + board_cells(w, h);
    let mut i: usize = 0;
    assert(all.subrange(0, all.len() as int) =~= all);
    while i < samples.len()
        invariant
            i <= samples@.len(),
            w == width as nat,
            h == height as nat,
            all == samples@ + board_cells(w, h),
            first_free(snake@, w, h, all) == first_free(snake@, w, h, all.subrange(i as int, all.len() as int)),
        decreases samples@.len() - i,
    {
        let p = samples[i];
        let ghost tail = all.subrange(i as int, all.len() as int);
        assert(tail[0] == p);
        assert(tail.drop_first() =~= all.subrange(i + 1, all.len() as int));
        if p.x < width && p.y < height && !occupies(snake, p) {
            return Some(p);
        }
        i = i + 1;
    }
    assert(all.subrange(i as int, all.len() as int) =~= board_cells(w, h));
    let cells = width * height;
    let mut k: usize = 0;
    assert(board_cells(w, h).subrange(0, cells as int) =~= board_cells(w, h));
    while k < cells
        invariant
            width >= 1,
            w == width as nat,
            h == height as nat,
            all == samples@ + board_cells(w, h),
            cells == w * h,
            k <= cells,
            first_free(snake@, w, h, all) == first_free(snake@, w, h, board_cells(w, h).subrange(k as int, cells as int)),
        decreases cells - k,
    {
        let p = Point { x: k % width, y: k / width };
        let ghost tail = board_cells(w, h).subrange(k as int, cells as int);
        assert(board_cells(w, h)[k as int] == p);
        assert(tail[0] == p);
        assert(tail.drop_first() =~= board_cells(w, h).subrange(k + 1, cells as int));
        if !occupies(snake, p) {
            assert(p.x < width);
            assert(p.y < height) by (nonlinear_arith)
                requires
                    p.y == k / width,
                    k < cells,
                    cells == width * height,
                    width >= 1,
            ;
            return Some(p);
        }
        k = k + 1;
    }
    assert(board_cells(w, h).subrange(k as int, cells as int).len() == 0);
    None
}

} // verus!
