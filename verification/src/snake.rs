//! The snake on its wrapping grid: movement, crashes, food.

use crate::position::Position;
use crate::random::random_below;
use std::collections::VecDeque;
use vstd::prelude::*;
use vstd::std_specs::cmp::PartialEqSpecImpl;
use vstd::std_specs::ops::{AddSpec, NegSpec, RemSpec};

verus! {

/// Ticks after which uneaten food is taken off the grid.
pub const FOOD_LIFETIME: i32 = 25000;

/// Ticks between two steps of the snake.
pub const STEP_TICKS: i32 = 40;

/// Random cells tried for new food before the grid is swept for a free one.
pub const PROBES: u32 = 1024;

/// A food item: where it lies and the tick at which it was spawned.
#[derive(Clone, Copy, Debug, Eq)]
pub struct Food {
    pub time: i32,
    pub position: [i32; 3],
}

impl PartialEq for Food {
    fn eq(&self, other: &Self) -> (equal: bool) {
        self.time == other.time && same_cell(&self.position, &other.position)
    }
}

impl PartialEqSpecImpl for Food {
    open spec fn obeys_eq_spec() -> bool {
        true
    }

    open spec fn eq_spec(&self, other: &Self) -> bool {
        self.time == other.time && self.position == other.position
    }
}

/// Whether two cells are the same cell.
pub fn same_cell(a: &[i32; 3], b: &[i32; 3]) -> (equal: bool)
    ensures
        equal == (*a == *b),
{
    proof {
        assert(*a =~= *b <==> *a == *b);
    }
    a[0] == b[0] && a[1] == b[1] && a[2] == b[2]
}

/// `(coordinate + step) mod size`, computed without overflow.
pub fn wrap_axis(coordinate: i32, step: i32, size: i32) -> (wrapped: i32)
    requires
        size > 0,
    ensures
        wrapped == (coordinate + step) % (size as int),
        0 <= wrapped < size,
{
    let sum: i64 = coordinate as i64 + step as i64;
    let wide: i64 = sum.checked_rem_euclid(size as i64).unwrap();
    wide as i32
}

/// The snake: its cells from oldest to newest, and where it is heading.
#[derive(Clone, Debug)]
pub struct Snake {
    pub parts: VecDeque<Position>,
    pub direction: Position,
}

/// Whether some food item of `food` lies on `cell`.
pub open spec fn food_on(food: Seq<Food>, cell: [i32; 3]) -> bool {
    exists|index: int| 0 <= index < food.len() && (#[trigger] food[index]).position == cell
}

/// Whether `index` is the first food item of `food` lying on `cell`.
pub open spec fn is_first_food(food: Seq<Food>, cell: [i32; 3], index: int) -> bool {
    &&& 0 <= index < food.len()
    &&& food[index].position == cell
    &&& forall|earlier: int| 0 <= earlier < index ==> (#[trigger] food[earlier]).position != cell
}

/// Index of the first food item lying on `cell`, where `food_on` holds.
pub open spec fn first_food(food: Seq<Food>, cell: [i32; 3]) -> int {
    choose|index: int| is_first_food(food, cell, index)
}

/// Among the food items lying on `cell`, one is the first.
pub proof fn lemma_first_food(food: Seq<Food>, cell: [i32; 3])
    requires
        food_on(food, cell),
    ensures
        is_first_food(food, cell, first_food(food, cell)),
{
    let index = choose|index: int| 0 <= index < food.len() && (#[trigger] food[index]).position == cell;
    lemma_first_food_up_to(food, cell, index);
}

proof fn lemma_first_food_up_to(food: Seq<Food>, cell: [i32; 3], bound: int)
    requires
        0 <= bound < food.len(),
        food[bound].position == cell,
    ensures
        exists|index: int| is_first_food(food, cell, index),
    decreases bound,
{
    if exists|earlier: int| 0 <= earlier < bound && (#[trigger] food[earlier]).position == cell {
        let earlier = choose|earlier: int|
            0 <= earlier < bound && (#[trigger] food[earlier]).position == cell;
        lemma_first_food_up_to(food, cell, earlier);
    } else {
        assert(is_first_food(food, cell, bound));
    }
}

/// Whether no two items of `food` lie on the same cell.
pub open spec fn food_apart(food: Seq<Food>) -> bool {
    forall|first: int, second: int|
        0 <= first < second < food.len() ==> (#[trigger] food[first]).position != (
        #[trigger] food[second]).position
}

/// Taking items away keeps the rest in place: each item that `keep` lets
/// through comes from the sequence, and they come in the same order.
pub proof fn lemma_filter_keeps_order(food: Seq<Food>, keep: spec_fn(Food) -> bool)
    ensures
        forall|index: int|
            0 <= index < food.filter(keep).len() ==> food.contains(
                #[trigger] food.filter(keep)[index],
            ),
        food_apart(food) ==> food_apart(food.filter(keep)),
    decreases food.len(),
{
    reveal(Seq::filter);
    if food.len() > 0 {
        let rest = food.drop_last();
        lemma_filter_keeps_order(rest, keep);
        let kept = food.filter(keep);
        assert forall|index: int| 0 <= index < kept.len() implies food.contains(
            #[trigger] kept[index],
        ) by {
            if index < rest.filter(keep).len() {
                let item = rest.filter(keep)[index];
                assert(rest.contains(item));
                let source = choose|source: int| 0 <= source < rest.len() && rest[source] == item;
                assert(food[source] == item);
            } else {
                assert(food[food.len() - 1] == kept[index]);
            }
        }
        if food_apart(food) {
            assert(food_apart(rest)) by {
                assert forall|first: int, second: int| 0 <= first < second < rest.len() implies (
                #[trigger] rest[first]).position != (#[trigger] rest[second]).position by {
                    assert(food[first].position != food[second].position);
                }
            }
            assert forall|first: int, second: int| 0 <= first < second < kept.len() implies (
            #[trigger] kept[first]).position != (#[trigger] kept[second]).position by {
                if second == rest.filter(keep).len() {
                    let item = rest.filter(keep)[first];
                    assert(rest.contains(item));
                    let source = choose|source: int| 0 <= source < rest.len() && rest[source] == item;
                    assert(food[source].position != food[food.len() - 1].position);
                }
            }
        }
    }
}

/// The food items that have not outlived `FOOD_LIFETIME` at tick `iteration`.
pub open spec fn fresh_at(iteration: int) -> spec_fn(Food) -> bool {
    |food: Food| iteration - food.time <= FOOD_LIFETIME
}

/// Whether the snake steps at tick `iteration`.
pub open spec fn is_step(iteration: int) -> bool {
    iteration % (STEP_TICKS as int) == 0
}

/// Whether cell `a` comes before cell `b` when the grid is swept axis by axis.
pub open spec fn swept_before(a: [i32; 3], b: [i32; 3]) -> bool {
    ||| a[0] < b[0]
    ||| a[0] == b[0] && a[1] < b[1]
    ||| a[0] == b[0] && a[1] == b[1] && a[2] < b[2]
}

impl Snake {
    /// A snake always has at least two parts; the last two give its motion.
    pub open spec fn wf(&self) -> bool {
        self.parts@.len() >= 2
    }

    /// The newest part: the end that moves.
    pub open spec fn newest(&self) -> Position {
        self.parts@[self.parts@.len() - 1]
    }

    /// The current motion along `axis`: newest part minus the one before it.
    pub open spec fn motion(&self, axis: int) -> int {
        self.newest().at(axis) - self.parts@[self.parts@.len() - 2].at(axis)
    }

    /// Whether `direction` is the exact negation of the current motion.
    pub open spec fn reverses(&self, direction: Position) -> bool {
        &&& direction.at(0) == -self.motion(0)
        &&& direction.at(1) == -self.motion(1)
        &&& direction.at(2) == -self.motion(2)
    }

    /// Where nothing overflows, `reverses` says that `direction` is the
    /// negation of the newest part minus the part before it.
    pub proof fn lemma_reverses_is_negated_difference(&self, direction: Position)
        requires
            self.wf(),
            self.parts@[self.parts@.len() - 2].neg_req(),
            self.newest().add_req(self.parts@[self.parts@.len() - 2].neg_spec()),
            self.newest().add_spec(self.parts@[self.parts@.len() - 2].neg_spec()).neg_req(),
        ensures
            self.reverses(direction) <==> direction == self.newest().add_spec(
                self.parts@[self.parts@.len() - 2].neg_spec(),
            ).neg_spec(),
    {
        let before = self.parts@[self.parts@.len() - 2];
        let delta = self.newest().add_spec(before.neg_spec());
        assert(delta.at(0) == self.motion(0));
        assert(delta.at(1) == self.motion(1));
        assert(delta.at(2) == self.motion(2));
        direction.lemma_componentwise(delta.neg_spec());
    }

    /// Whether some part lies on `cell`.
    pub open spec fn covers(&self, cell: [i32; 3]) -> bool {
        exists|index: int| 0 <= index < self.parts@.len() && (#[trigger] self.parts@[index]).0 == cell
    }

    /// Whether some part other than the oldest lies on `cell`.
    pub open spec fn bites(&self, cell: [i32; 3]) -> bool {
        exists|index: int| 1 <= index < self.parts@.len() && (#[trigger] self.parts@[index]).0 == cell
    }

    /// Whether the snake has its two parts or more.
    pub fn is_wf(&self) -> (valid: bool)
        ensures
            valid == self.wf(),
    {
        self.parts.len() >= 2
    }

    /// The snake at the start of a game: three cells along the first axis,
    /// heading further along it.
    pub fn new() -> (snake: Snake)
        ensures
            snake.parts@ == seq![Position([0, 0, 0]), Position([1, 0, 0]), Position([2, 0, 0])],
            snake.direction == Position([1, 0, 0]),
            snake.wf(),
    {
        let mut parts: VecDeque<Position> = VecDeque::new();
        parts.push_back(Position([0, 0, 0]));
        parts.push_back(Position([1, 0, 0]));
        parts.push_back(Position([2, 0, 0]));
        Snake { parts, direction: Position([1, 0, 0]) }
    }

    /// Whether some part other than the oldest lies on `cell`.
    pub fn is_biting(&self, cell: &[i32; 3]) -> (biting: bool)
        ensures
            biting == self.bites(*cell),
    {
        let mut index: usize = 1;
        while index < self.parts.len()
            invariant
                1 <= index,
                forall|seen: int|
                    1 <= seen < index && seen < self.parts@.len() ==> (#[trigger] self.parts@[seen]).0
                        != *cell,
            decreases self.parts@.len() - index,
        {
            if same_cell(&self.parts[index].0, cell) {
                return true;
            }
            index += 1;
        }
        false
    }

    /// Whether some part lies on `cell`.
    pub fn is_covering(&self, cell: &[i32; 3]) -> (covering: bool)
        ensures
            covering == self.covers(*cell),
    {
        let mut index: usize = 0;
        while index < self.parts.len()
            invariant
                forall|seen: int|
                    0 <= seen < index && seen < self.parts@.len() ==> (#[trigger] self.parts@[seen]).0
                        != *cell,
            decreases self.parts@.len() - index,
        {
            if same_cell(&self.parts[index].0, cell) {
                return true;
            }
            index += 1;
        }
        false
    }

    /// Whether `direction` is the exact negation of the direction the snake
    /// is heading in.
    pub open spec fn turns_back(&self, direction: Position) -> bool {
        &&& direction.at(0) == -self.direction.at(0)
        &&& direction.at(1) == -self.direction.at(1)
        &&& direction.at(2) == -self.direction.at(2)
    }

    /// The six directions a snake can head in, one pair per axis.
    pub fn vectors(&self) -> (axes: [Position; 6])
        ensures
            axes@ == seq![
                Position([1, 0, 0]),
                Position([(-1) as i32, 0, 0]),
                Position([0, 1, 0]),
                Position([0, (-1) as i32, 0]),
                Position([0, 0, 1]),
                Position([0, 0, (-1) as i32]),
            ],
    {
        [
            Position([1, 0, 0]),
            Position([-1, 0, 0]),
            Position([0, 1, 0]),
            Position([0, -1, 0]),
            Position([0, 0, 1]),
            Position([0, 0, -1]),
        ]
    }

    /// Takes `new_direction` unless it is the exact negation of the current
    /// motion, in which case the direction stays as it was.
    pub fn set_direction(&mut self, new_direction: Position)
        requires
            old(self).wf(),
        ensures
            final(self).parts@ == old(self).parts@,
            final(self).direction == if old(self).reverses(new_direction) {
                old(self).direction
            } else {
                new_direction
            },
            !old(self).reverses(old(self).direction) ==> !final(self).reverses(final(self).direction),
    {
        let count = self.parts.len();
        let newest = self.parts[count - 1];
        let before = self.parts[count - 2];
        let reversed = new_direction.0[0] as i64 == before.0[0] as i64 - newest.0[0] as i64
            && new_direction.0[1] as i64 == before.0[1] as i64 - newest.0[1] as i64
            && new_direction.0[2] as i64 == before.0[2] as i64 - newest.0[2] as i64;
        if reversed {
            return ;
        }
        self.direction = new_direction;
    }

    /// Steers towards `chosen`: the direction a player picked. It is taken
    /// unless it is the exact negation of the direction the snake is heading
    /// in, or of its current motion.
    pub fn steer(&mut self, chosen: Position)
        requires
            old(self).wf(),
        ensures
            final(self).parts@ == old(self).parts@,
            final(self).direction == if old(self).turns_back(chosen) || old(self).reverses(chosen) {
                old(self).direction
            } else {
                chosen
            },
            !old(self).reverses(old(self).direction) ==> !final(self).reverses(final(self).direction),
    {
        let back = chosen.0[0] as i64 == -(self.direction.0[0] as i64) && chosen.0[1] as i64 == -(
        self.direction.0[1] as i64) && chosen.0[2] as i64 == -(self.direction.0[2] as i64);
        if back {
            return ;
        }
        self.set_direction(chosen);
    }
}

/// One cube to draw, in grid units: the cube of cell `(x, y, z)` is centred
/// on `(x, y, z)` and one cell wide.
#[derive(Clone, Copy, Debug, PartialEq, Eq)]
pub struct Block {
    /// A food item rather than a part of the snake.
    pub food: bool,
    /// Width along each axis, in `STEP_TICKS`-ths of a cell.
    pub extent: [i32; 3],
    /// Centre along each axis, in halves of a `STEP_TICKS`-th of a cell.
    pub offset: [i64; 3],
}

/// Width along one axis of the cube growing from the cell at `attached`
/// towards the cell at `attaching`, `progress` ticks into the step: it grows
/// along the axis on which the two cells differ and is a full cell wide along
/// the others.
pub open spec fn stretch_extent(progress: int, attached: int, attaching: int) -> int {
    if attaching != attached {
        progress
    } else {
        STEP_TICKS as int
    }
}

/// Centre along one axis of that cube: at `progress` 0 it lies on the face
/// between the two cells, after a whole step on the centre of `attaching`.
pub open spec fn stretch_offset(progress: int, attached: int, attaching: int) -> int {
    2 * STEP_TICKS * attached + (attaching - attached) * (STEP_TICKS + progress)
}

/// Width and centre along one axis of the cube growing from `attached`
/// towards `attaching`.
pub fn stretch_axis(progress: i32, attached: i32, attaching: i32) -> (stretch: (i32, i64))
    requires
        0 <= progress <= STEP_TICKS,
    ensures
        stretch.0 == stretch_extent(progress as int, attached as int, attaching as int),
        stretch.1 == stretch_offset(progress as int, attached as int, attaching as int),
{
    let from = attached as i64;
    let delta = attaching as i64 - from;
    let reach = (STEP_TICKS + progress) as i64;
    assert(-0x1_0000_0000 * 2 * STEP_TICKS <= delta * reach <= 0x1_0000_0000 * 2 * STEP_TICKS)
        by (nonlinear_arith)
        requires
            -0x1_0000_0000 <= delta <= 0x1_0000_0000,
            0 <= reach <= 2 * STEP_TICKS,
    ;
    let extent = if delta != 0 {
        progress
    } else {
        STEP_TICKS
    };
    (extent, 2 * (STEP_TICKS as i64) * from + delta * reach)
}

/// The cube growing from `attached` towards `attaching`, `progress` ticks
/// into the step.
pub open spec fn stretched(progress: int, attached: Position, attaching: Position, block: Block) -> bool {
    &&& !block.food
    &&& forall|axis: int|
        0 <= axis < 3 ==> (#[trigger] block.extent[axis]) == stretch_extent(
            progress,
            attached.at(axis),
            attaching.at(axis),
        )
    &&& forall|axis: int|
        0 <= axis < 3 ==> (#[trigger] block.offset[axis]) == stretch_offset(
            progress,
            attached.at(axis),
            attaching.at(axis),
        )
}

/// The cube that fills `cell`.
pub open spec fn filling(food: bool, cell: [i32; 3], block: Block) -> bool {
    &&& block.food == food
    &&& forall|axis: int| 0 <= axis < 3 ==> (#[trigger] block.extent[axis]) == STEP_TICKS
    &&& forall|axis: int|
        0 <= axis < 3 ==> (#[trigger] block.offset[axis]) == 2 * STEP_TICKS * cell[axis]
}

/// Centre of a cell along one axis, in halves of a `STEP_TICKS`-th of a cell.
fn centre(coordinate: i32) -> (offset: i64)
    ensures
        offset == 2 * STEP_TICKS * coordinate,
{
    let wide: i64 = 2 * (STEP_TICKS as i64);
    assert(wide == 80);
    wide * (coordinate as i64)
}

/// The cube that fills `cell`.
pub fn whole(food: bool, cell: &[i32; 3]) -> (block: Block)
    ensures
        filling(food, *cell, block),
{
    Block {
        food,
        extent: [STEP_TICKS, STEP_TICKS, STEP_TICKS],
        offset: [centre(cell[0]), centre(cell[1]), centre(cell[2])],
    }
}

/// The snake game: a grid that wraps around on every axis, the snake on it
/// and the food lying about.
#[derive(Clone, Debug)]
pub struct Game {
    /// Cells per axis.
    pub size: [i32; 3],
    pub food: Vec<Food>,
    pub snake: Snake,
    /// Ticks since the snake last stepped, out of `STEP_TICKS`.
    pub progress: i32,
}

impl Game {
    /// The grid has at least one cell on every axis and the snake is well formed.
    pub open spec fn wf(&self) -> bool {
        &&& self.size[0] > 0
        &&& self.size[1] > 0
        &&& self.size[2] > 0
        &&& self.snake.wf()
    }

    /// Whether `cell` lies on the grid.
    pub open spec fn on_grid(&self, cell: [i32; 3]) -> bool {
        &&& 0 <= cell[0] < self.size[0]
        &&& 0 <= cell[1] < self.size[1]
        &&& 0 <= cell[2] < self.size[2]
    }

    /// Whether `cell` is on the grid, off the snake and off every item of `food`.
    pub open spec fn vacant_among(&self, food: Seq<Food>, cell: [i32; 3]) -> bool {
        &&& self.on_grid(cell)
        &&& !food_on(food, cell)
        &&& !self.snake.covers(cell)
    }

    /// Whether `cell` is on the grid and neither the snake nor food lies on it.
    pub open spec fn vacant(&self, cell: [i32; 3]) -> bool {
        self.vacant_among(self.food@, cell)
    }

    /// Every part of the snake and every food item lies on the grid.
    pub open spec fn settled(&self) -> bool {
        &&& forall|index: int|
            0 <= index < self.snake.parts@.len() ==> self.on_grid(
                (#[trigger] self.snake.parts@[index]).0,
            )
        &&& forall|index: int|
            0 <= index < self.food@.len() ==> self.on_grid((#[trigger] self.food@[index]).position)
    }

    /// No two food items lie on the same cell, and none lies under the snake.
    pub open spec fn tidy(&self) -> bool {
        &&& food_apart(self.food@)
        &&& forall|index: int|
            0 <= index < self.food@.len() ==> !self.snake.covers(
                (#[trigger] self.food@[index]).position,
            )
    }

    /// The cell the snake enters next: its newest part moved one step in its
    /// direction, wrapped around the grid on every axis.
    pub open spec fn candidate(&self) -> Position {
        Position(
            [
                ((self.snake.newest().at(0) + self.snake.direction.at(0)) % (self.size[0] as int)) as i32,
                ((self.snake.newest().at(1) + self.snake.direction.at(1)) % (self.size[1] as int)) as i32,
                ((self.snake.newest().at(2) + self.snake.direction.at(2)) % (self.size[2] as int)) as i32,
            ],
        )
    }

    /// The next step runs the snake into one of its own parts (the oldest,
    /// which is about to move away, does not count).
    pub open spec fn crashes(&self) -> bool {
        self.snake.bites(self.candidate().0)
    }

    /// The next step takes a food item.
    pub open spec fn eats(&self) -> bool {
        !self.crashes() && food_on(self.food@, self.candidate().0)
    }

    /// The next step cuts the snake down to its two newest parts: on a crash,
    /// or when it eats on the very cell its oldest part lies on.
    pub open spec fn shrinks(&self) -> bool {
        self.crashes() || (self.eats() && self.snake.parts@[0] == self.candidate())
    }

    /// The parts after the next step.
    pub open spec fn parts_after_step(&self) -> Seq<Position> {
        let parts = self.snake.parts@;
        let count = parts.len() as int;
        if self.shrinks() {
            parts.subrange(count - 2, count).push(self.candidate())
        } else if self.eats() {
            parts.push(self.candidate())
        } else {
            parts.subrange(1, count).push(self.candidate())
        }
    }

    /// The food after the next step: the first item on the entered cell is
    /// gone if the snake eats.
    pub open spec fn food_after_step(&self) -> Seq<Food> {
        if self.eats() {
            self.food@.remove(first_food(self.food@, self.candidate().0))
        } else {
            self.food@
        }
    }

    /// Whether `blocks` are the cubes of the game, in drawing order: the
    /// snake from its oldest part to its newest, then the food. The oldest
    /// part shrinks away towards the part after it and the newest grows out
    /// of the part before it, both by `progress`; every other part and every
    /// food item fills its cell.
    pub open spec fn draws(&self, blocks: Seq<Block>) -> bool {
        let parts = self.snake.parts@;
        let count = parts.len() as int;
        let food = self.food@;
        &&& blocks.len() == count + food.len()
        &&& stretched(STEP_TICKS - self.progress, parts[1], parts[0], blocks[0])
        &&& forall|index: int|
            1 <= index < count - 1 ==> filling(false, parts[index].0, #[trigger] blocks[index])
        &&& stretched(self.progress as int, parts[count - 2], parts[count - 1], blocks[count - 1])
        &&& forall|index: int|
            0 <= index < food.len() ==> filling(
                true,
                food[index].position,
                #[trigger] blocks[count + index],
            )
    }

    /// What one step at tick `iteration` makes of the game `before`: the
    /// snake has moved, food older than `FOOD_LIFETIME` ticks is gone, and one
    /// new item lies on a cell that was free of the moved snake and of the
    /// food that stayed. `spawned` is false, and no item is added, exactly
    /// when there was no such cell.
    pub open spec fn ran(&self, before: &Game, iteration: int, spawned: bool) -> bool {
        let kept = before.food_after_step().filter(fresh_at(iteration));
        let food = self.food@;
        &&& self.snake.parts@ == before.parts_after_step()
        &&& self.snake.direction == before.snake.direction
        &&& self.size == before.size
        &&& if spawned {
            &&& food.len() == kept.len() + 1
            &&& food.drop_last() == kept
            &&& food.last().time == iteration
            &&& self.vacant_among(kept, food.last().position)
        } else {
            &&& food == kept
            &&& forall|cell: [i32; 3]| !#[trigger] self.vacant_among(kept, cell)
        }
    }

    /// Where the sum fits, the entered cell is the newest part plus the
    /// direction, taken modulo the size of the grid.
    pub proof fn lemma_candidate_is_wrapped_sum(&self)
        requires
            self.wf(),
            self.snake.newest().add_req(self.snake.direction),
        ensures
            self.snake.newest().add_spec(self.snake.direction).rem_req(self.size),
            self.candidate() == self.snake.newest().add_spec(self.snake.direction).rem_spec(
                self.size,
            ),
    {
        let sum = self.snake.newest().add_spec(self.snake.direction);
        assert(sum.at(0) == self.snake.newest().at(0) + self.snake.direction.at(0));
        assert(sum.at(1) == self.snake.newest().at(1) + self.snake.direction.at(1));
        assert(sum.at(2) == self.snake.newest().at(2) + self.snake.direction.at(2));
        self.candidate().lemma_componentwise(sum.rem_spec(self.size));
    }

    /// A step that cuts the snake down leaves exactly two of its old parts,
    /// the two newest, and the entered cell after them.
    pub proof fn lemma_shrunk_to_two(&self)
        requires
            self.wf(),
            self.shrinks(),
        ensures
            self.parts_after_step() == seq![
                self.snake.parts@[self.snake.parts@.len() - 2],
                self.snake.newest(),
                self.candidate(),
            ],
    {
    }

    /// A step never leaves the snake with fewer than two parts, and its
    /// newest part is the entered cell, which lies on the grid.
    pub proof fn lemma_step_keeps_shape(&self)
        requires
            self.wf(),
        ensures
            self.parts_after_step().len() >= 2,
            self.parts_after_step().last() == self.candidate(),
            self.parts_after_step()[self.parts_after_step().len() - 2] == self.snake.newest(),
            self.on_grid(self.candidate().0),
    {
    }

    /// A step keeps the snake and the food on the grid.
    pub proof fn lemma_step_stays_on_grid(&self, before: &Game, iteration: int, spawned: bool)
        requires
            before.wf(),
            before.settled(),
            self.ran(before, iteration, spawned),
        ensures
            self.settled(),
    {
        let parts = before.snake.parts@;
        let eaten = before.food_after_step();
        let kept = eaten.filter(fresh_at(iteration));
        assert forall|index: int| 0 <= index < self.snake.parts@.len() implies self.on_grid(
            (#[trigger] self.snake.parts@[index]).0,
        ) by {
            if index < self.snake.parts@.len() - 1 {
                if before.shrinks() {
                    assert(self.snake.parts@[index] == parts[parts.len() - 2 + index]);
                } else if before.eats() {
                    assert(self.snake.parts@[index] == parts[index]);
                } else {
                    assert(self.snake.parts@[index] == parts[index + 1]);
                }
            }
        }
        assert forall|index: int| 0 <= index < eaten.len() implies before.on_grid(
            (#[trigger] eaten[index]).position,
        ) by {
            if before.eats() {
                let first = first_food(before.food@, before.candidate().0);
                lemma_first_food(before.food@, before.candidate().0);
                if index < first {
                    assert(eaten[index] == before.food@[index]);
                } else {
                    assert(eaten[index] == before.food@[index + 1]);
                }
            }
        }
        assert forall|index: int| 0 <= index < self.food@.len() implies self.on_grid(
            (#[trigger] self.food@[index]).position,
        ) by {
            if index < kept.len() {
                if spawned {
                    assert(self.food@.drop_last()[index] == kept[index]);
                }
                assert(kept.contains(kept[index]));
                eaten.lemma_filter_contains_rev(fresh_at(iteration), kept[index]);
                let source = choose|source: int| 0 <= source < eaten.len() && eaten[source] == kept[index];
                assert(before.on_grid(eaten[source].position));
            }
        }
    }

    /// A step keeps the food apart and out from under the snake: food the
    /// snake moves onto is eaten, and new food is spawned on a free cell.
    pub proof fn lemma_step_keeps_food_apart(&self, before: &Game, iteration: int, spawned: bool)
        requires
            before.wf(),
            before.tidy(),
            self.ran(before, iteration, spawned),
        ensures
            self.tidy(),
    {
        let parts = before.snake.parts@;
        let cell = before.candidate();
        let eaten = before.food_after_step();
        let kept = eaten.filter(fresh_at(iteration));
        if before.eats() {
            lemma_first_food(before.food@, cell.0);
        }
        let first = first_food(before.food@, cell.0);
        // What is left after eating comes from the food before, in order.
        assert forall|index: int| 0 <= index < eaten.len() implies (#[trigger] eaten[index])
            == before.food@[if before.eats() && index >= first {
                index + 1
            } else {
                index
            }] by {}
        assert(food_apart(eaten)) by {
            assert forall|one: int, other: int| 0 <= one < other < eaten.len() implies (
            #[trigger] eaten[one]).position != (#[trigger] eaten[other]).position by {
                let from = if before.eats() && one >= first {
                    one + 1
                } else {
                    one
                };
                let to = if before.eats() && other >= first {
                    other + 1
                } else {
                    other
                };
                assert(before.food@[from].position != before.food@[to].position);
            }
        }
        // None of it lies under the moved snake.
        assert forall|index: int| 0 <= index < eaten.len() implies !self.snake.covers(
            (#[trigger] eaten[index]).position,
        ) by {
            let from = if before.eats() && index >= first {
                index + 1
            } else {
                index
            };
            let item = before.food@[from];
            assert(!before.snake.covers(item.position));
            if self.snake.covers(item.position) {
                let part = choose|part: int|
                    0 <= part < self.snake.parts@.len() && (#[trigger] self.snake.parts@[part]).0
                        == item.position;
                if part < self.snake.parts@.len() - 1 {
                    if before.shrinks() {
                        assert(self.snake.parts@[part] == parts[parts.len() - 2 + part]);
                    } else if before.eats() {
                        assert(self.snake.parts@[part] == parts[part]);
                    } else {
                        assert(self.snake.parts@[part] == parts[part + 1]);
                    }
                    assert(false);
                } else {
                    // The item lies on the entered cell.
                    assert(item.position == cell.0);
                    if before.crashes() {
                        let hit = choose|hit: int|
                            1 <= hit < parts.len() && (#[trigger] parts[hit]).0 == cell.0;
                        assert(before.snake.covers(item.position));
                    } else if before.eats() {
                        assert(before.food@[first].position == before.food@[from].position);
                        if from < first {
                            assert(false);
                        } else {
                            assert(before.food@[first].position != before.food@[from].position);
                        }
                    } else {
                        assert(food_on(before.food@, cell.0));
                    }
                    assert(false);
                }
            }
        }
        lemma_filter_keeps_order(eaten, fresh_at(iteration));
        assert forall|index: int| 0 <= index < kept.len() implies !self.snake.covers(
            (#[trigger] kept[index]).position,
        ) by {
            assert(eaten.contains(kept[index]));
            let source = choose|source: int| 0 <= source < eaten.len() && eaten[source] == kept[index];
            assert(!self.snake.covers(eaten[source].position));
        }
        let food = self.food@;
        if spawned {
            assert forall|index: int| 0 <= index < kept.len() implies food[index] == kept[index] by {
                assert(food.drop_last()[index] == kept[index]);
            }
            assert forall|one: int, other: int| 0 <= one < other < food.len() implies (
            #[trigger] food[one]).position != (#[trigger] food[other]).position by {
                if other < kept.len() {
                    assert(kept[one].position != kept[other].position);
                } else {
                    assert(!food_on(kept, food[other].position));
                    assert(kept[one].position != food[other].position);
                }
            }
            assert forall|index: int| 0 <= index < food.len() implies !self.snake.covers(
                (#[trigger] food[index]).position,
            ) by {
                if index < kept.len() {
                    assert(!self.snake.covers(kept[index].position));
                }
            }
        }
    }

    /// A step never turns the snake back on itself: heading along one axis
    /// from a part on the grid, its direction is not the negation of its
    /// motion after the step. A grid only two cells wide along that axis is
    /// the exception, since there a step forward and a step back enter the
    /// same cell.
    pub proof fn lemma_step_never_reverses(&self, before: &Game, iteration: int, spawned: bool)
        requires
            before.wf(),
            before.on_grid(before.snake.newest().0),
            before.snake.direction.is_axis(),
            forall|axis: int|
                0 <= axis < 3 && before.snake.direction.at(axis) != 0 ==> #[trigger] before.size[axis]
                    != 2,
            self.ran(before, iteration, spawned),
        ensures
            !self.snake.reverses(self.snake.direction),
    {
        before.lemma_step_keeps_shape();
        let heading = before.snake.direction;
        let from = before.snake.newest();
        let axis = if heading.at(0) != 0 {
            0int
        } else if heading.at(1) != 0 {
            1int
        } else {
            2int
        };
        let size = before.size[axis] as int;
        assert(size != 2);
        let to = (from.at(axis) + heading.at(axis)) % size;
        assert(self.snake.motion(axis) == to - from.at(axis));
        if heading.at(axis) == 1 {
            if from.at(axis) + 1 < size {
                assert(to == from.at(axis) + 1) by (nonlinear_arith)
                    requires
                        to == (from.at(axis) + 1) % size,
                        0 <= from.at(axis) + 1 < size,
                ;
            } else {
                assert(to == 0) by (nonlinear_arith)
                    requires
                        to == (from.at(axis) + 1) % size,
                        from.at(axis) + 1 == size,
                        size > 0,
                ;
            }
        } else {
            if from.at(axis) >= 1 {
                assert(to == from.at(axis) - 1) by (nonlinear_arith)
                    requires
                        to == (from.at(axis) - 1) % size,
                        0 <= from.at(axis) - 1 < size,
                ;
            } else {
                assert(to == size - 1) by (nonlinear_arith)
                    requires
                        to == (0 - 1) % size,
                        size > 0,
                ;
            }
        }
    }

    /// After a step at tick `iteration` no food is older than
    /// `FOOD_LIFETIME` ticks: an item spawned at tick `T` is gone after any
    /// step at a tick later than `T + FOOD_LIFETIME`.
    pub proof fn lemma_stale_food_is_gone(&self, before: &Game, iteration: int, spawned: bool)
        requires
            self.ran(before, iteration, spawned),
        ensures
            forall|index: int|
                0 <= index < self.food@.len() ==> iteration - (#[trigger] self.food@[index]).time
                    <= FOOD_LIFETIME,
    {
        let kept = before.food_after_step().filter(fresh_at(iteration));
        assert forall|index: int| 0 <= index < self.food@.len() implies iteration - (
        #[trigger] self.food@[index]).time <= FOOD_LIFETIME by {
            if index < kept.len() {
                if spawned {
                    assert(self.food@.drop_last()[index] == kept[index]);
                }
                before.food_after_step().lemma_filter_pred(fresh_at(iteration), index);
            }
        }
    }

    /// Whether the grid has cells on every axis and the snake its two parts.
    pub fn is_wf(&self) -> (valid: bool)
        ensures
            valid == self.wf(),
    {
        self.size[0] > 0 && self.size[1] > 0 && self.size[2] > 0 && self.snake.is_wf()
    }

    /// Index of the first food item lying on `cell`, if any does.
    pub fn find_food(&self, cell: &[i32; 3]) -> (found: Option<usize>)
        ensures
            found is Some <==> food_on(self.food@, *cell),
            found matches Some(index) ==> is_first_food(self.food@, *cell, index as int) && index
                == first_food(self.food@, *cell),
    {
        let mut index: usize = 0;
        while index < self.food.len()
            invariant
                index <= self.food@.len(),
                forall|seen: int| 0 <= seen < index ==> (#[trigger] self.food@[seen]).position != *cell,
            decreases self.food@.len() - index,
        {
            if same_cell(&self.food[index].position, cell) {
                assert(is_first_food(self.food@, *cell, index as int));
                return Some(index);
            }
            index += 1;
        }
        None
    }

    /// The cell the snake enters next.
    pub fn next_cell(&self) -> (cell: Position)
        requires
            self.wf(),
        ensures
            cell == self.candidate(),
            self.on_grid(cell.0),
    {
        let newest = self.snake.parts[self.snake.parts.len() - 1];
        Position(
            [
                wrap_axis(newest.0[0], self.snake.direction.0[0], self.size[0]),
                wrap_axis(newest.0[1], self.snake.direction.0[1], self.size[1]),
                wrap_axis(newest.0[2], self.snake.direction.0[2], self.size[2]),
            ],
        )
    }

    /// Moves the snake one cell.
    ///
    /// Running into one of its own parts cuts it down to its two newest
    /// parts; entering a cell with food takes the food and lets it grow;
    /// otherwise its oldest part moves away. The entered cell becomes its
    /// newest part in every case.
    pub fn forward(&mut self)
        requires
            old(self).wf(),
        ensures
            final(self).snake.parts@ == old(self).parts_after_step(),
            final(self).food@ == old(self).food_after_step(),
            final(self).snake.direction == old(self).snake.direction,
            final(self).size == old(self).size,
            final(self).progress == old(self).progress,
            final(self).wf(),
    {
        let cell = self.next_cell();
        let count = self.snake.parts.len();
        if self.snake.is_biting(&cell.0) {
            let newest = self.snake.parts.split_off(count - 2);
            self.snake.parts = newest;
        } else {
            match self.find_food(&cell.0) {
                Some(index) => {
                    self.food.remove(index);
                    proof {
                        self.snake.parts@[0].lemma_componentwise(cell);
                    }
                    if self.snake.parts[0] == cell {
                        let newest = self.snake.parts.split_off(count - 2);
                        self.snake.parts = newest;
                    }
                },
                None => {
                    self.snake.parts.pop_front();
                },
            }
        }
        self.snake.parts.push_back(cell);
    }

    /// Whether `cell` is on the grid and neither the snake nor food lies on it.
    pub fn is_unoccupied(&self, cell: &[i32; 3]) -> (free: bool)
        ensures
            free == self.vacant(*cell),
    {
        0 <= cell[0] && cell[0] < self.size[0] && 0 <= cell[1] && cell[1] < self.size[1] && 0
            <= cell[2] && cell[2] < self.size[2] && self.find_food(cell).is_none()
            && !self.snake.is_covering(cell)
    }

    /// The first free cell met when the grid is swept axis by axis, or `None`
    /// when the grid is full.
    pub fn first_unoccupied(&self) -> (cell: Option<[i32; 3]>)
        ensures
            cell matches Some(free) ==> self.vacant(free) && forall|other: [i32; 3]|
                swept_before(other, free) ==> !#[trigger] self.vacant(other),
            cell is None ==> forall|other: [i32; 3]| !#[trigger] self.vacant(other),
    {
        let mut x: i32 = 0;
        while x < self.size[0]
            invariant
                0 <= x,
                forall|other: [i32; 3]| other[0] < x ==> !#[trigger] self.vacant(other),
            decreases self.size[0] - x,
        {
            let mut y: i32 = 0;
            while y < self.size[1]
                invariant
                    0 <= y,
                    0 <= x < self.size[0],
                    forall|other: [i32; 3]| other[0] < x ==> !#[trigger] self.vacant(other),
                    forall|other: [i32; 3]|
                        other[0] == x && other[1] < y ==> !#[trigger] self.vacant(other),
                decreases self.size[1] - y,
            {
                let mut z: i32 = 0;
                while z < self.size[2]
                    invariant
                        0 <= z,
                        0 <= x < self.size[0],
                        0 <= y < self.size[1],
                        forall|other: [i32; 3]| other[0] < x ==> !#[trigger] self.vacant(other),
                        forall|other: [i32; 3]|
                            other[0] == x && other[1] < y ==> !#[trigger] self.vacant(other),
                        forall|other: [i32; 3]|
                            other[0] == x && other[1] == y && other[2] < z ==> !#[trigger] self.vacant(
                                other,
                            ),
                    decreases self.size[2] - z,
                {
                    let cell = [x, y, z];
                    if self.is_unoccupied(&cell) {
                        return Some(cell);
                    }
                    assert forall|other: [i32; 3]|
                        other[0] == x && other[1] == y && other[2] < z + 1 implies !#[trigger] self.vacant(
                        other,
                    ) by {
                        if other[2] == z {
                            assert(other =~= cell);
                        }
                    }
                    z += 1;
                }
                y += 1;
            }
            x += 1;
        }
        None
    }

    /// A free cell for new food, or `None` when the grid has none.
    ///
    /// Cells are drawn uniformly at random and rejected while occupied. After
    /// `PROBES` rejections the grid is swept instead, so that a free cell is
    /// found whenever one exists.
    pub fn unoccupied(&self) -> (cell: Option<[i32; 3]>)
        ensures
            cell matches Some(free) ==> self.vacant(free),
            cell is None ==> forall|other: [i32; 3]| !#[trigger] self.vacant(other),
    {
        if self.size[0] <= 0 || self.size[1] <= 0 || self.size[2] <= 0 {
            return None;
        }
        let mut probes: u32 = 0;
        while probes < PROBES
            invariant
                self.size[0] > 0,
                self.size[1] > 0,
                self.size[2] > 0,
            decreases PROBES - probes,
        {
            let cell = [
                random_below(self.size[0]),
                random_below(self.size[1]),
                random_below(self.size[2]),
            ];
            if self.is_unoccupied(&cell) {
                return Some(cell);
            }
            probes += 1;
        }
        self.first_unoccupied()
    }

    /// Takes every food item older than `FOOD_LIFETIME` ticks off the grid;
    /// the others stay in their order.
    pub fn expire(&mut self, iteration: i32)
        ensures
            final(self).food@ == old(self).food@.filter(fresh_at(iteration as int)),
            final(self).snake == old(self).snake,
            final(self).size == old(self).size,
            final(self).progress == old(self).progress,
    {
        let mut kept: Vec<Food> = Vec::new();
        let mut index: usize = 0;
        while index < self.food.len()
            invariant
                index <= self.food@.len(),
                kept@ == self.food@.subrange(0, index as int).filter(fresh_at(iteration as int)),
                *self == *old(self),
            decreases self.food@.len() - index,
        {
            let item = self.food[index];
            proof {
                reveal(Seq::filter);
                assert(self.food@.subrange(0, index + 1).drop_last() =~= self.food@.subrange(
                    0,
                    index as int,
                ));
            }
            if iteration as i64 - item.time as i64 <= FOOD_LIFETIME as i64 {
                kept.push(item);
            }
            index += 1;
        }
        proof {
            reveal(Seq::filter);
            assert(self.food@.subrange(0, index as int) =~= self.food@);
        }
        self.food = kept;
    }

    /// One step of the game at tick `iteration`: the snake moves, food
    /// older than `FOOD_LIFETIME` ticks goes, and one new food item is
    /// spawned on a free cell.
    ///
    /// Returns whether food was spawned; it is not exactly when no cell is
    /// free.
    pub fn run(&mut self, iteration: i32) -> (spawned: bool)
        requires
            old(self).wf(),
        ensures
            final(self).ran(old(self), iteration as int, spawned),
            final(self).progress == old(self).progress,
            final(self).wf(),
            old(self).settled() ==> final(self).settled(),
            old(self).tidy() ==> final(self).tidy(),
    {
        self.forward();
        self.expire(iteration);
        let ghost kept = self.food@;
        let spawned = match self.unoccupied() {
            Some(position) => {
                assert(self.vacant(position));
                self.food.push(Food { position, time: iteration });
                assert(self.food@.drop_last() =~= kept);
                true
            },
            None => {
                assert forall|cell: [i32; 3]| !#[trigger] self.vacant_among(kept, cell) by {
                    assert(!self.vacant(cell));
                }
                false
            },
        };
        proof {
            if old(self).settled() {
                self.lemma_step_stays_on_grid(old(self), iteration as int, spawned);
            }
            if old(self).tidy() {
                self.lemma_step_keeps_food_apart(old(self), iteration as int, spawned);
            }
        }
        spawned
    }

    /// One tick of the background loop: every `STEP_TICKS`-th tick the game
    /// takes a step, and `progress` says how far the tick is into its window.
    ///
    /// Returns whether the step spawned food, or `None` on a tick without a step.
    pub fn tick(&mut self, iteration: i32) -> (stepped: Option<bool>)
        requires
            old(self).wf(),
        ensures
            final(self).wf(),
            final(self).progress == iteration % STEP_TICKS,
            stepped is Some <==> is_step(iteration as int),
            stepped matches Some(spawned) ==> final(self).ran(old(self), iteration as int, spawned),
            0 <= final(self).progress < STEP_TICKS,
            stepped is None ==> final(self).snake == old(self).snake && final(self).food == old(self).food
                && final(self).size == old(self).size,
            old(self).settled() ==> final(self).settled(),
            old(self).tidy() ==> final(self).tidy(),
    {
        let progress = iteration.checked_rem_euclid(STEP_TICKS).unwrap();
        let stepped = if progress == 0 {
            Some(self.run(iteration))
        } else {
            None
        };
        let ghost moved = *self;
        self.progress = progress;
        proof {
            let kept = old(self).food_after_step().filter(fresh_at(iteration as int));
            assert forall|cell: [i32; 3]| #[trigger]
                self.vacant_among(kept, cell) == moved.vacant_among(kept, cell) by {}
        }
        stepped
    }

    /// The cube growing from the cell `attached` towards the neighbouring
    /// cell `attaching`, `progress` ticks into a step of `STEP_TICKS`.
    pub fn extend_progress(&self, progress: i32, attached: Position, attaching: Position) -> (block:
        Block)
        requires
            0 <= progress <= STEP_TICKS,
        ensures
            stretched(progress as int, attached, attaching, block),
    {
        let x = stretch_axis(progress, attached.0[0], attaching.0[0]);
        let y = stretch_axis(progress, attached.0[1], attaching.0[1]);
        let z = stretch_axis(progress, attached.0[2], attaching.0[2]);
        let extent: [i32; 3] = [x.0, y.0, z.0];
        let offset: [i64; 3] = [x.1, y.1, z.1];
        Block { food: false, extent, offset }
    }

    /// The cubes of the game, in drawing order.
    pub fn cubes(&self) -> (blocks: Vec<Block>)
        requires
            self.wf(),
            0 <= self.progress <= STEP_TICKS,
        ensures
            self.draws(blocks@),
    {
        let count = self.snake.parts.len();
        let mut blocks: Vec<Block> = Vec::new();
        blocks.push(
            self.extend_progress(
                STEP_TICKS - self.progress,
                self.snake.parts[1],
                self.snake.parts[0],
            ),
        );
        let mut index: usize = 1;
        while index < count - 1
            invariant
                count == self.snake.parts@.len(),
                count >= 2,
                1 <= index <= count - 1,
                blocks@.len() == index,
                stretched(
                    STEP_TICKS - self.progress,
                    self.snake.parts@[1],
                    self.snake.parts@[0],
                    blocks@[0],
                ),
                forall|done: int|
                    1 <= done < index ==> filling(
                        false,
                        self.snake.parts@[done].0,
                        #[trigger] blocks@[done],
                    ),
            decreases count - index,
        {
            blocks.push(whole(false, &self.snake.parts[index].0));
            index += 1;
        }
        blocks.push(
            self.extend_progress(
                self.progress,
                self.snake.parts[count - 2],
                self.snake.parts[count - 1],
            ),
        );
        let mut item: usize = 0;
        while item < self.food.len()
            invariant
                count == self.snake.parts@.len(),
                count >= 2,
                item <= self.food@.len(),
                blocks@.len() == count + item,
                stretched(
                    STEP_TICKS - self.progress,
                    self.snake.parts@[1],
                    self.snake.parts@[0],
                    blocks@[0],
                ),
                forall|done: int|
                    1 <= done < count - 1 ==> filling(
                        false,
                        self.snake.parts@[done].0,
                        #[trigger] blocks@[done],
                    ),
                stretched(
                    self.progress as int,
                    self.snake.parts@[count - 2],
                    self.snake.parts@[count - 1],
                    blocks@[count - 1],
                ),
                forall|done: int|
                    0 <= done < item ==> filling(
                        true,
                        self.food@[done].position,
                        #[trigger] blocks@[count + done],
                    ),
            decreases self.food@.len() - item,
        {
            blocks.push(whole(true, &self.food[item].position));
            item += 1;
        }
        blocks
    }
}

} // verus!
