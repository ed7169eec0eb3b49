use vstd::prelude::*;
use crate::board::{CellKind, Direction, index_of, pos_of, on_edge, inside, lemma_indexing};
use crate::model::{GameView, START_LIVES, dims_ok, lemma_dims, lemma_fresh, lemma_placed, lemma_ticked};

verus! {

/// One step of play: a tick with its random draw, or a key press.
#[derive(Clone, Copy, Debug, PartialEq, Eq, Structural)]
pub enum Action {
    Tick(usize),
    Press(Direction),
}

/// The state after one action.
pub open spec fn apply(v: GameView, a: Action) -> GameView {
    match a {
        Action::Tick(rand) => v.ticked(rand),
        Action::Press(d) => v.input(d),
    }
}

/// The state after a sequence of actions, first to last.
pub open spec fn play(v: GameView, acts: Seq<Action>) -> GameView
    decreases acts.len(),
{
    if acts.len() == 0 {
        v
    } else {
        apply(play(v, acts.drop_last()), acts.last())
    }
}

/// The state a new game starts in.
pub open spec fn new_game(height: nat, width: nat, base_speed: nat, rand: usize) -> GameView {
    GameView::fresh(height, width, base_speed, START_LIVES as nat).placed(rand)
}

/// The cells that show a head.
pub open spec fn head_cells(v: GameView) -> Set<int> {
    Set::new(|i: int| 0 <= i < v.grid().len() && v.grid()[i] is Head)
}

/// A new game is well formed.
pub proof fn lemma_new_game(height: nat, width: nat, base_speed: nat, rand: usize)
    requires
        dims_ok(height, width),
        base_speed <= usize::MAX,
    ensures
        new_game(height, width, base_speed, rand).wf(),
        new_game(height, width, base_speed, rand).height == height,
        new_game(height, width, base_speed, rand).width == width,
{
    lemma_fresh(height, width, base_speed, START_LIVES as nat);
    lemma_placed(GameView::fresh(height, width, base_speed, START_LIVES as nat), rand);
}

/// Every action keeps a well-formed state well formed, on a board of the same size.
pub proof fn lemma_play(v: GameView, acts: Seq<Action>)
    requires
        v.wf(),
    ensures
        play(v, acts).wf(),
        play(v, acts).height == v.height,
        play(v, acts).width == v.width,
    decreases acts.len(),
{
    if acts.len() > 0 {
        lemma_play(v, acts.drop_last());
        if let Action::Tick(rand) = acts.last() {
            lemma_ticked(play(v, acts.drop_last()), rand);
        }
    }
}

/// In every state reachable from a new game, exactly one cell shows the head: the head's own.
pub proof fn law_one_head(height: nat, width: nat, base_speed: nat, rand: usize, acts: Seq<Action>)
    requires
        dims_ok(height, width),
        base_speed <= usize::MAX,
    ensures
        ({
            let s = play(new_game(height, width, base_speed, rand), acts);
            head_cells(s) == set![index_of(width, s.head)]
        }),
{
    let s = play(new_game(height, width, base_speed, rand), acts);
    lemma_new_game(height, width, base_speed, rand);
    lemma_play(new_game(height, width, base_speed, rand), acts);
    lemma_indexing(height, width);
    lemma_dims(height, width);
    assert(s.snake()[s.snake().len() - 1] == s.head);
    assert(inside(height, width, s.head));
    assert(head_cells(s) =~= set![index_of(width, s.head)]);
}

/// In every state reachable from a new game, the snake covers no cell twice.
pub proof fn law_snake_distinct(height: nat, width: nat, base_speed: nat, rand: usize, acts: Seq<Action>)
    requires
        dims_ok(height, width),
        base_speed <= usize::MAX,
    ensures
        play(new_game(height, width, base_speed, rand), acts).snake().no_duplicates(),
{
    lemma_new_game(height, width, base_speed, rand);
    lemma_play(new_game(height, width, base_speed, rand), acts);
}

/// In every state reachable from a new game, the board keeps its size and every cell of the
/// outer ring shows the border, so no sequence of actions changes a border cell.
pub proof fn law_border_fixed(height: nat, width: nat, base_speed: nat, rand: usize, acts: Seq<Action>)
    requires
        dims_ok(height, width),
        base_speed <= usize::MAX,
    ensures
        ({
            let s = play(new_game(height, width, base_speed, rand), acts);
            &&& s.grid().len() == height * width
            &&& forall|i: int|
                0 <= i < height * width && on_edge(height, width, #[trigger] pos_of(width, i)) ==> s.grid()[i]
                    == CellKind::Border
        }),
{
    lemma_new_game(height, width, base_speed, rand);
    lemma_play(new_game(height, width, base_speed, rand), acts);
}

/// Pressing the same key twice does what pressing it once does.
pub proof fn law_input_idempotent(v: GameView, d: Direction)
    ensures
        v.input(d).input(d) == v.input(d),
{
}

/// Pressing the key of the current heading, with no other turn queued, changes nothing.
pub proof fn law_current_heading_no_op(v: GameView)
    requires
        v.pending == v.direction,
    ensures
        v.input(v.direction) == v,
{
}

} // verus!
