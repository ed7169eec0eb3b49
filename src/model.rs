use vstd::prelude::*;
use vstd::set_lib::{lemma_int_range, lemma_len_subset, set_int_range};
use crate::board::{
    CellKind, Direction, Pos, next_pos, on_edge, inside, index_of, pos_of, empties, kth_empty,
    is_kth_empty, lemma_indexing, lemma_pos_index, lemma_index_pos, lemma_kth_empty_exists, lemma_empties_monotone,
};

verus! {

/// Lives a game starts with.
pub const START_LIVES: usize = 3;

/// What the engine asks its host to draw or announce.
#[derive(Clone, Copy, Debug, PartialEq, Eq, Structural)]
pub enum Notice {
    /// Repaint one cell.
    Draw { row: usize, col: usize, kind: CellKind },
    /// The score is now this value.
    Score(usize),
    /// The lives left are now this value.
    Lives(usize),
    Died,
    GameOver,
    FoodAdded,
    AteFood,
    /// No cell was free for new food: the game stops.
    BoardFull,
    RenderPre,
    RenderPost,
}

/// Why an engine operation could not be done.
#[derive(Clone, Copy, Debug, PartialEq, Eq, Structural)]
pub enum GameError {
    /// The board is too small to hold its border and the starting snake.
    InvalidDimensions,
    /// No free cell is left for food.
    BoardFull,
}

/// The abstract state of a game.
pub struct GameView {
    pub height: nat,
    pub width: nat,
    pub base_speed: nat,
    pub score: nat,
    pub lives: nat,
    pub tick_count: nat,
    pub running: bool,
    /// The heading of the last move.
    pub direction: Direction,
    /// The heading the next move will take.
    pub pending: Direction,
    /// The body cells, tail first, neck last.
    pub body: Seq<Pos>,
    pub head: Pos,
    pub food: Option<Pos>,
}

/// A draw notice for cell `p`.
pub open spec fn draw_at(p: Pos, kind: CellKind) -> Notice {
    Notice::Draw { row: p.y, col: p.x, kind }
}

/// A board of these dimensions holds its border and the starting snake.
pub open spec fn dims_ok(height: nat, width: nat) -> bool {
    6 <= height && 5 <= width && height * width <= usize::MAX
}

impl GameView {
    /// All cells of the snake, tail first, head last.
    pub open spec fn snake(self) -> Seq<Pos> {
        self.body.push(self.head)
    }

    /// What cell `p` holds.
    pub open spec fn kind_of(self, p: Pos) -> CellKind {
        if on_edge(self.height, self.width, p) {
            CellKind::Border
        } else if p == self.head {
            CellKind::Head
        } else if self.body.contains(p) {
            CellKind::Body
        } else if self.food == Some(p) {
            CellKind::Food
        } else {
            CellKind::Empty
        }
    }

    /// The whole board in row-major order.
    pub open spec fn grid(self) -> Seq<CellKind> {
        Seq::new(self.height * self.width, |i: int| self.kind_of(pos_of(self.width, i)))
    }

    /// Everything that holds of a state, except that food may be missing.
    pub open spec fn shape_ok(self) -> bool {
        &&& dims_ok(self.height, self.width)
        &&& self.base_speed <= usize::MAX
        &&& self.tick_count <= usize::MAX
        &&& self.lives <= usize::MAX
        &&& 2 <= self.body.len() < usize::MAX
        &&& self.score == self.body.len() - 2
        &&& self.running ==> self.lives >= 1
        &&& forall|i: int|
            0 <= i < self.snake().len() ==> inside(self.height, self.width, #[trigger] self.snake()[i])
        &&& self.snake().no_duplicates()
        &&& self.food matches Some(f) ==> inside(self.height, self.width, f) && !self.snake().contains(f)
    }

    /// A well-formed state: a running game always has food on the board.
    pub open spec fn wf(self) -> bool {
        &&& self.shape_ok()
        &&& self.running ==> self.food is Some
    }

    /// Cells that hold nothing.
    pub open spec fn free_cells(self) -> nat {
        empties(self.grid(), self.grid().len() as int)
    }

    /// Put food on the free cell chosen by `rand`; on a full board the game stops instead.
    pub open spec fn placed(self, rand: usize) -> GameView {
        let n = self.free_cells();
        if n == 0 {
            GameView { running: false, ..self }
        } else {
            GameView { food: Some(pos_of(self.width, kth_empty(self.grid(), (rand as nat) % n))), ..self }
        }
    }

    /// A fresh board: snake of two body cells above its head at the centre, heading down, no food.
    pub open spec fn fresh(height: nat, width: nat, base_speed: nat, lives: nat) -> GameView {
        let cx = (width / 2) as usize;
        let cy = height / 2;
        GameView {
            height,
            width,
            base_speed,
            score: 0,
            lives,
            tick_count: 0,
            running: true,
            direction: Direction::Down,
            pending: Direction::Down,
            body: seq![Pos { x: cx, y: (cy - 2) as usize }, Pos { x: cx, y: (cy - 1) as usize }],
            head: Pos { x: cx, y: cy as usize },
            food: None,
        }
    }

    /// A key press: a heading is queued unless it reverses the last move or the game is over.
    pub open spec fn input(self, d: Direction) -> GameView {
        if self.running && d != self.direction.reverse() {
            GameView { pending: d, ..self }
        } else {
            self
        }
    }

    /// Ticks per move: `max(1, base_speed - body length / 2)`.
    pub open spec fn speed(self) -> nat {
        let half = self.body.len() / 2;
        if self.base_speed > half {
            (self.base_speed - half) as nat
        } else {
            1
        }
    }

    /// The tick counter after one more tick; it wraps past `usize::MAX`.
    pub open spec fn next_count(self) -> nat {
        if self.tick_count >= usize::MAX {
            0
        } else {
            self.tick_count + 1
        }
    }

    /// Where the head goes on the next move.
    pub open spec fn target(self) -> Pos {
        next_pos(self.head, self.pending)
    }

    /// The state after a move is attempted.
    pub open spec fn advanced(self, rand: usize) -> GameView {
        let s = GameView { direction: self.pending, ..self };
        let t = self.target();
        match self.kind_of(t) {
            CellKind::Empty => GameView { body: s.body.drop_first().push(s.head), head: t, ..s },
            CellKind::Food => GameView {
                body: s.body.push(s.head),
                head: t,
                food: None,
                score: s.score + 1,
                ..s
            }.placed(rand),
            _ => if s.lives > 1 {
                GameView::fresh(s.height, s.width, s.base_speed, (s.lives - 1) as nat).placed(rand)
            } else {
                GameView { lives: 0, running: false, ..s }
            },
        }
    }

    /// The counter is advanced; the snake moves when the counter is a multiple of the speed.
    pub open spec fn counted(self) -> GameView {
        GameView { tick_count: self.next_count(), ..self }
    }

    pub open spec fn moves_now(self) -> bool {
        self.counted().tick_count % self.speed() == 0
    }

    /// The state after one tick.
    pub open spec fn ticked(self, rand: usize) -> GameView {
        if !self.running {
            self
        } else if self.moves_now() {
            self.counted().advanced(rand)
        } else {
            self.counted()
        }
    }

    /// A draw notice for every cell, in row-major order.
    pub open spec fn full_draw(self) -> Seq<Notice> {
        Seq::new(
            self.height * self.width,
            |i: int| draw_at(pos_of(self.width, i), self.kind_of(pos_of(self.width, i))),
        )
    }

    /// What placing food announces.
    pub open spec fn food_notices(self) -> Seq<Notice> {
        match self.food {
            Some(f) => seq![draw_at(f, CellKind::Food), Notice::FoodAdded],
            None => seq![Notice::BoardFull],
        }
    }

    /// What a fresh board with these lives announces, once food is placed.
    pub open spec fn fresh_notices(height: nat, width: nat, base_speed: nat, lives: nat, rand: usize) -> Seq<Notice> {
        let b = GameView::fresh(height, width, base_speed, lives);
        seq![Notice::Lives(lives as usize), Notice::Score(0)] + b.full_draw() + b.placed(rand).food_notices()
    }

    /// What an attempted move announces.
    pub open spec fn advance_notices(self, rand: usize) -> Seq<Notice> {
        let t = self.target();
        match self.kind_of(t) {
            CellKind::Empty => seq![
                draw_at(self.body[0], CellKind::Empty),
                draw_at(self.head, CellKind::Body),
                draw_at(t, CellKind::Head),
            ],
            CellKind::Food => seq![
                Notice::AteFood,
                Notice::Score((self.score + 1) as usize),
                draw_at(self.head, CellKind::Body),
                draw_at(t, CellKind::Head),
            ] + self.advanced(rand).food_notices(),
            _ => if self.lives > 1 {
                seq![Notice::Died] + GameView::fresh_notices(
                    self.height,
                    self.width,
                    self.base_speed,
                    (self.lives - 1) as nat,
                    rand,
                )
            } else {
                seq![Notice::Lives(0), Notice::GameOver]
            },
        }
    }

    /// What one tick announces.
    pub open spec fn tick_notices(self, rand: usize) -> Seq<Notice> {
        if !self.running {
            seq![]
        } else if self.moves_now() {
            seq![Notice::RenderPre] + self.counted().advance_notices(rand) + seq![Notice::RenderPost]
        } else {
            seq![Notice::RenderPre, Notice::RenderPost]
        }
    }
}

/// Each side of a valid board fits in `usize`.
pub proof fn lemma_dims(height: nat, width: nat)
    requires
        dims_ok(height, width),
    ensures
        height <= usize::MAX,
        width <= usize::MAX,
        height * width >= 30,
{
    assert(height <= height * width && width <= height * width && height * width >= 30)
        by (nonlinear_arith)
        requires
            height >= 6,
            width >= 5,
    ;
}

/// The snake never covers more cells than the inside of the board has.
pub proof fn lemma_snake_fits(v: GameView)
    requires
        v.shape_ok(),
    ensures
        v.snake().len() < v.height * v.width,
{
    let s = v.snake();
    let w = v.width;
    let m = s.map_values(|p: Pos| index_of(w, p));
    assert forall|i: int, j: int| 0 <= i < m.len() && 0 <= j < m.len() && i != j implies m[i] != m[j] by {
        lemma_pos_index(v.height, w, s[i]);
        lemma_pos_index(v.height, w, s[j]);
    }
    m.unique_seq_to_set();
    assert(v.height * w >= 30) by (nonlinear_arith)
        requires
            v.height >= 6,
            w >= 5,
    ;
    lemma_int_range(1, (v.height * w) as int);
    assert forall|x: int| m.to_set().contains(x) implies set_int_range(1, (v.height * w) as int).contains(x) by {
        let i = choose|i: int| 0 <= i < m.len() && m[i] == x;
        lemma_pos_index(v.height, w, s[i]);
    }
    lemma_len_subset(m.to_set(), set_int_range(1, (v.height * w) as int));
}

/// The move target lies on the board, and an `Empty` target is inside and free.
pub proof fn lemma_target(v: GameView)
    requires
        v.shape_ok(),
    ensures
        v.target().x < v.width,
        v.target().y < v.height,
        v.target() != v.head,
        inside(v.height, v.width, v.head),
        v.kind_of(v.target()) is Empty ==> inside(v.height, v.width, v.target())
            && !v.snake().contains(v.target()) && v.food != Some(v.target()),
        v.kind_of(v.target()) is Food ==> inside(v.height, v.width, v.target())
            && !v.snake().contains(v.target()) && v.food == Some(v.target()),
{
    broadcast use vstd::seq_lib::group_seq_properties;
    assert(v.snake()[v.snake().len() - 1] == v.head);
    assert(inside(v.height, v.width, v.head));
    lemma_dims(v.height, v.width);
    assert(v.head.y <= usize::MAX && v.head.x <= usize::MAX);
    match v.pending {
        Direction::Up => assert(v.target().y == v.head.y - 1),
        Direction::Down => assert(v.target().y == v.head.y + 1),
        Direction::Left => assert(v.target().x == v.head.x - 1),
        Direction::Right => assert(v.target().x == v.head.x + 1),
    }
}

/// Placing food on a state without food gives a well-formed state.
pub proof fn lemma_placed(v: GameView, rand: usize)
    requires
        v.shape_ok(),
        v.food is None,
    ensures
        v.placed(rand).wf(),
        v.placed(rand).height == v.height,
        v.placed(rand).width == v.width,
        v.free_cells() > 0 ==> is_kth_empty(
            v.grid(),
            kth_empty(v.grid(), (rand as nat) % v.free_cells()),
            (rand as nat) % v.free_cells(),
        ),
{
    broadcast use vstd::seq_lib::group_seq_properties;
    let g = v.grid();
    let n = v.free_cells();
    if n > 0 {
        let k = (rand as nat) % n;
        lemma_kth_empty_exists(g, g.len() as int, k);
        let i = kth_empty(g, k);
        lemma_index_pos(v.height, v.width, i);
        let p = pos_of(v.width, i);
        assert(g[i] == v.kind_of(p));
        assert(!v.snake().contains(p));
    }
}

/// A fresh board is well formed apart from its food, and has room for food.
pub proof fn lemma_fresh(height: nat, width: nat, base_speed: nat, lives: nat)
    requires
        dims_ok(height, width),
        base_speed <= usize::MAX,
        1 <= lives <= usize::MAX,
    ensures
        GameView::fresh(height, width, base_speed, lives).shape_ok(),
        GameView::fresh(height, width, base_speed, lives).food is None,
        GameView::fresh(height, width, base_speed, lives).free_cells() > 0,
{
    broadcast use vstd::seq_lib::group_seq_properties;
    let v = GameView::fresh(height, width, base_speed, lives);
    let s = v.snake();
    lemma_dims(height, width);
    let cx = (width / 2) as usize;
    let cy = height / 2;
    assert(s.len() == 3);
    assert(s[0] == Pos { x: cx, y: (cy - 2) as usize });
    assert(s[1] == Pos { x: cx, y: (cy - 1) as usize });
    assert(s[2] == Pos { x: cx, y: cy as usize });
    assert(s.no_duplicates());
    assert forall|i: int| 0 <= i < s.len() implies inside(height, width, #[trigger] s[i]) by {
        assert(s[i] == s[0] || s[i] == s[1] || s[i] == s[2]);
    }
    let p = Pos { x: 1, y: 1 };
    lemma_pos_index(height, width, p);
    let g = v.grid();
    assert(g[index_of(width, p)] == v.kind_of(p));
    assert(!v.body.contains(p)) by {
        if v.body.contains(p) {
            let j = choose|j: int| 0 <= j < v.body.len() && v.body[j] == p;
        }
    }
    lemma_empties_monotone(g, index_of(width, p) + 1, g.len() as int);
}

/// An attempted move keeps a running, well-formed state well formed.
pub proof fn lemma_advanced(v: GameView, rand: usize)
    requires
        v.wf(),
        v.running,
    ensures
        v.advanced(rand).wf(),
        v.advanced(rand).height == v.height,
        v.advanced(rand).width == v.width,
{
    broadcast use vstd::seq_lib::group_seq_properties;
    lemma_target(v);
    lemma_snake_fits(v);
    let t = v.target();
    let s = GameView { direction: v.pending, ..v };
    match v.kind_of(t) {
        CellKind::Empty => {
            let n = v.advanced(rand);
            assert(n.snake() =~= v.snake().drop_first().push(t));
            assert(n.snake().no_duplicates()) by {
                assert forall|i: int, j: int| 0 <= i < n.snake().len() && 0 <= j < n.snake().len() && i != j
                    implies n.snake()[i] != n.snake()[j] by {
                    if i < n.snake().len() - 1 && j < n.snake().len() - 1 {
                        assert(n.snake()[i] == v.snake()[i + 1]);
                        assert(n.snake()[j] == v.snake()[j + 1]);
                    } else if i < n.snake().len() - 1 {
                        assert(n.snake()[i] == v.snake()[i + 1]);
                    } else if j < n.snake().len() - 1 {
                        assert(n.snake()[j] == v.snake()[j + 1]);
                    }
                }
            }
            assert forall|i: int| 0 <= i < n.snake().len() implies inside(n.height, n.width, #[trigger] n.snake()[i]) by {
                if i < n.snake().len() - 1 {
                    assert(n.snake()[i] == v.snake()[i + 1]);
                }
            }
            if let Some(f) = v.food {
                assert(!n.snake().contains(f)) by {
                    if n.snake().contains(f) {
                        let j = choose|j: int| 0 <= j < n.snake().len() && n.snake()[j] == f;
                        if j < n.snake().len() - 1 {
                            assert(n.snake()[j] == v.snake()[j + 1]);
                        }
                    }
                }
            }
        },
        CellKind::Food => {
            let g = GameView { body: s.body.push(s.head), head: t, food: None, score: s.score + 1, ..s };
            assert(g.snake() =~= v.snake().push(t));
            assert forall|i: int| 0 <= i < g.snake().len() implies inside(g.height, g.width, #[trigger] g.snake()[i]) by {
                if i < g.snake().len() - 1 {
                    assert(g.snake()[i] == v.snake()[i]);
                }
            }
            lemma_placed(g, rand);
        },
        _ => {
            if s.lives > 1 {
                lemma_fresh(s.height, s.width, s.base_speed, (s.lives - 1) as nat);
                lemma_placed(GameView::fresh(s.height, s.width, s.base_speed, (s.lives - 1) as nat), rand);
            }
        },
    }
}

/// A plain move changes three cells: the tail empties, the old head turns to body, the target
/// becomes the head.
pub proof fn lemma_move_grid(v: GameView)
    requires
        v.wf(),
        v.kind_of(v.target()) is Empty,
    ensures
        ({
            let n = GameView { body: v.body.drop_first().push(v.head), head: v.target(), ..v };
            n.grid() == v.grid().update(index_of(v.width, v.body[0]), CellKind::Empty).update(
                index_of(v.width, v.head),
                CellKind::Body,
            ).update(index_of(v.width, v.target()), CellKind::Head)
        }),
{
    broadcast use vstd::seq_lib::group_seq_properties;
    lemma_target(v);
    lemma_dims(v.height, v.width);
    lemma_indexing(v.height, v.width);
    let t = v.target();
    let tail = v.body[0];
    let n = GameView { body: v.body.drop_first().push(v.head), head: t, ..v };
    let w = v.width;
    assert(v.snake()[0] == tail);
    assert(v.snake()[v.snake().len() - 1] == v.head);
    assert(inside(v.height, w, tail));
    assert(inside(v.height, w, v.head));
    let u = v.grid().update(index_of(w, tail), CellKind::Empty).update(index_of(w, v.head), CellKind::Body).update(
        index_of(w, t),
        CellKind::Head,
    );
    assert forall|i: int| 0 <= i < n.grid().len() implies n.grid()[i] == u[i] by {
        let p = pos_of(w, i);
        if p == t {
        } else if p == v.head {
            assert(n.body[n.body.len() - 1] == v.head);
        } else if p == tail {
            assert(!n.body.contains(tail)) by {
                if n.body.contains(tail) {
                    let j = choose|j: int| 0 <= j < n.body.len() && n.body[j] == tail;
                    if j < n.body.len() - 1 {
                        assert(v.snake()[j + 1] == tail);
                    } else {
                        assert(v.snake()[v.snake().len() - 1] == tail);
                    }
                }
            }
        } else {
            assert(n.body.contains(p) == v.body.contains(p)) by {
                if v.body.contains(p) {
                    let j = choose|j: int| 0 <= j < v.body.len() && v.body[j] == p;
                    assert(n.body[j - 1] == p);
                }
                if n.body.contains(p) {
                    let j = choose|j: int| 0 <= j < n.body.len() && n.body[j] == p;
                    assert(v.body[j + 1] == p);
                }
            }
        }
    }
    assert(n.grid() =~= u);
}

/// Eating changes two cells: the old head turns to body, the food cell becomes the head.
pub proof fn lemma_grow_grid(v: GameView)
    requires
        v.wf(),
        v.kind_of(v.target()) is Food,
    ensures
        ({
            let n = GameView { body: v.body.push(v.head), head: v.target(), food: None, ..v };
            n.grid() == v.grid().update(index_of(v.width, v.head), CellKind::Body).update(
                index_of(v.width, v.target()),
                CellKind::Head,
            )
        }),
{
    broadcast use vstd::seq_lib::group_seq_properties;
    lemma_target(v);
    lemma_dims(v.height, v.width);
    lemma_indexing(v.height, v.width);
    let t = v.target();
    let n = GameView { body: v.body.push(v.head), head: t, food: None, ..v };
    let w = v.width;
    assert(v.snake()[v.snake().len() - 1] == v.head);
    assert(inside(v.height, w, v.head));
    let u = v.grid().update(index_of(w, v.head), CellKind::Body).update(index_of(w, t), CellKind::Head);
    assert forall|i: int| 0 <= i < n.grid().len() implies n.grid()[i] == u[i] by {
        let p = pos_of(w, i);
        if p == t {
        } else if p == v.head {
            assert(n.body[n.body.len() - 1] == v.head);
        } else {
            assert(n.body.contains(p) == v.body.contains(p)) by {
                if v.body.contains(p) {
                    let j = choose|j: int| 0 <= j < v.body.len() && v.body[j] == p;
                    assert(n.body[j] == p);
                }
            }
        }
    }
    assert(n.grid() =~= u);
}

/// Placing food changes only the chosen cell.
pub proof fn lemma_place_grid(v: GameView, f: Pos)
    requires
        v.shape_ok(),
        v.food is None,
        f.x < v.width,
        f.y < v.height,
        (v.kind_of(f) is Empty),
    ensures
        (GameView { food: Some(f), ..v }).grid() == v.grid().update(index_of(v.width, f), CellKind::Food),
{
    lemma_dims(v.height, v.width);
    lemma_indexing(v.height, v.width);
    let n = GameView { food: Some(f), ..v };
    assert(n.grid() =~= v.grid().update(index_of(v.width, f), CellKind::Food));
}

/// One tick keeps a well-formed state well formed, on a board of the same size.
pub proof fn lemma_ticked(v: GameView, rand: usize)
    requires
        v.wf(),
    ensures
        v.ticked(rand).wf(),
        v.ticked(rand).height == v.height,
        v.ticked(rand).width == v.width,
{
    if v.running && v.moves_now() {
        lemma_advanced(v.counted(), rand);
    }
}

} // verus!
