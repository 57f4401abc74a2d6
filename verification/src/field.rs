//! The brick field: where the bricks of a new session stand and what kind
//! each of them is.

use vstd::prelude::*;
use rand::rngs::StdRng;
use crate::config::{
    BONUS_ROLL_LIMIT, BRICK_COLUMNS, BRICK_HEIGHT, BRICK_WIDTH, GAP_BETWEEN_BRICKS_AND_CEILING,
    GAP_BETWEEN_BRICKS_AND_SIDES, GAP_BETWEEN_BRICKS_X, GAP_BETWEEN_BRICKS_Y, HIGHER_BOUND_X,
    HIGHER_BOUND_Y, KIND_ROLL_RANGE, LOWER_BOUND_X,
};
use crate::geometry::{Vec2, clamp_i64, saturate};
use crate::entity::{Brick, BrickType};
use crate::rng::gen_range;

verus! {

/// Where a row of bricks starts: the centre of its first brick.
pub open spec fn left_bound() -> int {
    LOWER_BOUND_X + GAP_BETWEEN_BRICKS_AND_SIDES + BRICK_WIDTH / 2
}

/// Where a row of bricks ends: no brick's centre lies beyond this bound.
pub open spec fn right_bound() -> int {
    HIGHER_BOUND_X - GAP_BETWEEN_BRICKS_AND_SIDES - BRICK_WIDTH / 2
}

/// The height of the first row's centres.
pub open spec fn top_bound() -> int {
    HIGHER_BOUND_Y - GAP_BETWEEN_BRICKS_AND_CEILING - BRICK_HEIGHT / 2
}

/// The distance between the centres of two neighbours in a row.
pub open spec fn column_step() -> int {
    GAP_BETWEEN_BRICKS_X + BRICK_WIDTH / 2
}

/// The distance between the centres of two neighbours in a column.
pub open spec fn row_step() -> int {
    BRICK_HEIGHT + GAP_BETWEEN_BRICKS_Y
}

/// The x coordinate of the bricks in column `col`, counted from 0 at the
/// left bound: `left_bound() + col * column_step()`, written out in
/// sub-units.
pub open spec fn brick_x(col: int) -> int {
    -360_000_000_000 + col * 70_000_000_000
}

/// The y coordinate of the bricks in row `row`, counted from 0 at the top:
/// `top_bound() - row * row_step()`, written out in sub-units. Rows below
/// the coordinate range stand at its lower end.
pub open spec fn brick_y(row: int) -> i64 {
    clamp_i64(275_000_000_000 - row * 20_000_000_000)
}

/// The kind of brick that a roll from `0..KIND_ROLL_RANGE` yields.
pub open spec fn spec_brick_type(roll: i32) -> BrickType {
    if roll < BONUS_ROLL_LIMIT {
        BrickType::AddTripleBall
    } else {
        BrickType::Normal
    }
}

/// The brick of the given kind at the given place of the field, intact.
pub open spec fn spec_field_brick(row: int, col: int, brick_type: BrickType) -> Brick {
    Brick {
        position: Vec2 { x: brick_x(col) as i64, y: brick_y(row) },
        size: Vec2 { x: BRICK_WIDTH, y: BRICK_HEIGHT },
        health: 1,
        brick_type,
        despawn: false,
    }
}

/// Whether `brick` is an intact brick at the given place of the field, of
/// whatever kind.
pub open spec fn is_field_brick(brick: Brick, row: int, col: int) -> bool {
    brick == spec_field_brick(row, col, brick.brick_type)
}

/// Whether a slot holds an intact brick at the given place of the field.
pub open spec fn is_field_slot(slot: Option<Brick>, row: int, col: int) -> bool {
    match slot {
        Some(brick) => is_field_brick(brick, row, col),
        None => false,
    }
}

/// Whether the table `bricks` is the table `before` followed by `rows` full
/// rows of the field, row after row from the top, each row from left to
/// right.
pub open spec fn is_field_added(
    before: Seq<Option<Brick>>,
    bricks: Seq<Option<Brick>>,
    rows: int,
) -> bool {
    &&& bricks.len() == before.len() + rows * BRICK_COLUMNS
    &&& bricks.subrange(0, before.len() as int) == before
    &&& forall|i: int|
        before.len() <= i < bricks.len() ==> is_field_slot(
            #[trigger] bricks[i],
            (i - before.len()) / (BRICK_COLUMNS as int),
            (i - before.len()) % (BRICK_COLUMNS as int),
        )
}

/// The `k`-th brick laid out with the given rolls: it stands at the `k`-th
/// place of the field, rows counted from the top and each row from the left,
/// and its kind is that of the `k`-th roll.
pub open spec fn laid_brick(rolls: Seq<i32>, k: int) -> Option<Brick> {
    Some(
        spec_field_brick(
            k / (BRICK_COLUMNS as int),
            k % (BRICK_COLUMNS as int),
            spec_brick_type(rolls[k]),
        ),
    )
}

/// The first `n` bricks laid out with the given rolls.
pub open spec fn laid_bricks(rolls: Seq<i32>, n: nat) -> Seq<Option<Brick>> {
    Seq::new(n, |k: int| laid_brick(rolls, k))
}

/// How many bricks `rows` rows take, as far as the rolls go.
pub open spec fn laid_count(rolls: Seq<i32>, rows: int) -> nat {
    if rows <= 0 {
        0
    } else if rolls.len() <= rows * BRICK_COLUMNS {
        rolls.len()
    } else {
        (rows * BRICK_COLUMNS) as nat
    }
}

/// The table `before` followed by `rows` rows of the field, the kind of each
/// brick taken from its roll. Where the rolls run out the field ends.
pub open spec fn spec_lay_bricks(before: Seq<Option<Brick>>, rolls: Seq<i32>, rows: int) -> Seq<
    Option<Brick>,
> {
    before + laid_bricks(rolls, laid_count(rolls, rows))
}

/// Whether `rolls` can be the rolls drawn for `rows` rows: one for each
/// brick, each from `0..KIND_ROLL_RANGE`.
pub open spec fn is_kind_rolls(rolls: Seq<i32>, rows: int) -> bool {
    &&& rolls.len() == rows * BRICK_COLUMNS
    &&& forall|k: int| 0 <= k < rolls.len() ==> 0 <= #[trigger] rolls[k] < KIND_ROLL_RANGE
}

/// Whether the table `bricks` is the table `before` followed by `rows` rows
/// of the field laid out with rolls that can be drawn.
pub open spec fn is_field_drawn(
    before: Seq<Option<Brick>>,
    bricks: Seq<Option<Brick>>,
    rows: int,
) -> bool {
    exists|rolls: Seq<i32>|
        #[trigger] is_kind_rolls(rolls, rows) && bricks == spec_lay_bricks(before, rolls, rows)
}

/// The places of the field. Column `col` stands `col` steps to the right of
/// the left bound, and row `row` stands `row` steps below the top bound. A
/// row holds `BRICK_COLUMNS` bricks: these are the columns whose bricks do
/// not lie beyond the right bound.
pub proof fn lemma_places(col: int, row: int)
    requires
        0 <= col,
    ensures
        brick_x(col) == left_bound() + col * column_step(),
        brick_y(row) == clamp_i64(top_bound() - row * row_step()),
        brick_x(col) <= right_bound() <==> col < BRICK_COLUMNS,
{
    assert(col * column_step() == col * 70_000_000_000) by (nonlinear_arith)
        requires
            column_step() == 70_000_000_000,
    ;
    assert(row * row_step() == row * 20_000_000_000) by (nonlinear_arith)
        requires
            row_step() == 20_000_000_000,
    ;
}

/// A field laid out with a roll for each brick consists of full rows.
pub proof fn lemma_field_drawn_added(
    before: Seq<Option<Brick>>,
    bricks: Seq<Option<Brick>>,
    rows: int,
)
    requires
        0 <= rows,
        is_field_drawn(before, bricks, rows),
    ensures
        is_field_added(before, bricks, rows),
{
    let rolls = choose|rolls: Seq<i32>|
        #[trigger] is_kind_rolls(rolls, rows) && bricks == spec_lay_bricks(before, rolls, rows);
    assert(bricks.subrange(0, before.len() as int) =~= before);
}

/// Decides the kind of a brick from its roll.
pub fn brick_type_for(roll: i32) -> (brick_type: BrickType)
    ensures
        brick_type == spec_brick_type(roll),
{
    if roll < BONUS_ROLL_LIMIT {
        BrickType::AddTripleBall
    } else {
        BrickType::Normal
    }
}

/// Lays out `num_rows` rows of bricks and appends them to `bricks`. A row
/// starts at the left bound and goes on, step by step, as long as the right
/// bound is not passed. The kind of each brick is decided by its roll:
/// `rolls` holds one roll for each brick, row after row. Where the rolls run
/// out the field ends. No row is laid out if `num_rows` is not positive.
pub fn lay_bricks(bricks: &mut Vec<Option<Brick>>, rolls: &Vec<i32>, num_rows: i32)
    ensures
        final(bricks)@ == spec_lay_bricks(old(bricks)@, rolls@, num_rows as int),
{
    let left: i64 = LOWER_BOUND_X + GAP_BETWEEN_BRICKS_AND_SIDES + BRICK_WIDTH / 2;
    let right: i64 = HIGHER_BOUND_X - GAP_BETWEEN_BRICKS_AND_SIDES - BRICK_WIDTH / 2;
    let top: i64 = HIGHER_BOUND_Y - GAP_BETWEEN_BRICKS_AND_CEILING - BRICK_HEIGHT / 2;
    let step: i64 = GAP_BETWEEN_BRICKS_X + BRICK_WIDTH / 2;
    let height: i64 = BRICK_HEIGHT + GAP_BETWEEN_BRICKS_Y;

    let ghost before = bricks@;
    let mut next: usize = 0;
    let mut row: i32 = 0;
    assert(bricks@ =~= before + laid_bricks(rolls@, 0));
    while row < num_rows
        invariant
            0 <= row,
            row <= num_rows || row == 0,
            left == left_bound(),
            right == right_bound(),
            top == top_bound(),
            step == column_step(),
            height == row_step(),
            next == laid_count(rolls@, row as int),
            bricks@ == before + laid_bricks(rolls@, next as nat),
        decreases num_rows - row,
    {
        assert(0 <= row * height <= 0x8000_0000 * 0x8000_0000_0000_0000) by (nonlinear_arith)
            requires
                0 <= row <= 0x8000_0000,
                0 <= height <= 0x8000_0000_0000_0000,
        ;
        let y: i64 = saturate((top as i128) - (row as i128) * (height as i128));
        let mut x: i64 = left;
        let ghost mut col: int = 0;
        proof {
            lemma_places(0, row as int);
        }
        while x <= right
            invariant
                0 <= col <= BRICK_COLUMNS,
                0 <= row < num_rows,
                x == brick_x(col),
                right == right_bound(),
                step == column_step(),
                y == brick_y(row as int),
                next <= rolls@.len(),
                next == rolls@.len() || next == row * BRICK_COLUMNS + col,
                next <= row * BRICK_COLUMNS + col,
                bricks@ == before + laid_bricks(rolls@, next as nat),
            ensures
                col == BRICK_COLUMNS,
            decreases BRICK_COLUMNS - col,
        {
            if next < rolls.len() {
                let brick = Brick {
                    position: Vec2 { x, y },
                    size: Vec2 { x: BRICK_WIDTH, y: BRICK_HEIGHT },
                    health: 1,
                    brick_type: brick_type_for(rolls[next]),
                    despawn: false,
                };
                bricks.push(Some(brick));
                proof {
                    let here = row * BRICK_COLUMNS + col;
                    assert(here / (BRICK_COLUMNS as int) == row as int);
                    assert(here % (BRICK_COLUMNS as int) == col);
                    assert(Some(brick) == laid_brick(rolls@, next as int));
                    assert(bricks@ =~= before + laid_bricks(rolls@, (next + 1) as nat));
                }
                next = next + 1;
            }
            proof {
                col = col + 1;
            }
            x = x + step;
        }
        row = row + 1;
    }
}

/// Lays out `num_rows` rows of bricks and appends them to `bricks`. The
/// kind of each brick is decided by a roll drawn from `rng`. No row is laid
/// out if `num_rows` is not positive.
pub fn setup_bricks(bricks: &mut Vec<Option<Brick>>, rng: &mut StdRng, num_rows: i32)
    ensures
        is_field_drawn(old(bricks)@, final(bricks)@, if num_rows > 0 { num_rows as int } else { 0 }),
        is_field_added(old(bricks)@, final(bricks)@, if num_rows > 0 { num_rows as int } else { 0 }),
{
    let mut rolls: Vec<i32> = Vec::new();
    let mut row: i32 = 0;
    while row < num_rows
        invariant
            0 <= row,
            row <= num_rows || row == 0,
            is_kind_rolls(rolls@, row as int),
        decreases num_rows - row,
    {
        let mut col: usize = 0;
        while col < BRICK_COLUMNS
            invariant
                0 <= col <= BRICK_COLUMNS,
                rolls@.len() == row * BRICK_COLUMNS + col,
                forall|k: int| 0 <= k < rolls@.len() ==> 0 <= #[trigger] rolls@[k] < KIND_ROLL_RANGE,
            decreases BRICK_COLUMNS - col,
        {
            let roll = gen_range(rng, 0, KIND_ROLL_RANGE);
            rolls.push(roll);
            col = col + 1;
        }
        row = row + 1;
    }
    let ghost rows: int = if num_rows > 0 {
        num_rows as int
    } else {
        0
    };
    lay_bricks(bricks, &rolls, num_rows);
    proof {
        assert(is_kind_rolls(rolls@, rows));
        assert(bricks@ == spec_lay_bricks(old(bricks)@, rolls@, rows));
        lemma_field_drawn_added(old(bricks)@, bricks@, rows);
    }
}

} // verus!
