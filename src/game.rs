use vstd::prelude::*;
use crate::board::{
    CellKind, Direction, Pos, step, on_edge, index_of, pos_of, empties, is_kth_empty, kth_empty,
    lemma_indexing, lemma_pos_index, lemma_kth_empty_exists, lemma_kth_empty_unique,
};
use crate::model::{
    GameView, Notice, GameError, START_LIVES, draw_at, dims_ok, lemma_dims, lemma_fresh, lemma_placed,
    lemma_target, lemma_advanced, lemma_snake_fits, lemma_move_grid, lemma_grow_grid, lemma_place_grid,
};

verus! {

/// A game of snake: the board, the snake on it, its food, score and lives.
pub struct Game {
    height: usize,
    width: usize,
    base_speed: usize,
    score: usize,
    lives: usize,
    tick_count: usize,
    running: bool,
    direction: Direction,
    pending: Direction,
    body: Vec<Pos>,
    head: Pos,
    food: Option<Pos>,
    grid: Vec<CellKind>,
}

impl View for Game {
    type V = GameView;

    closed spec fn view(&self) -> GameView {
        GameView {
            height: self.height as nat,
            width: self.width as nat,
            base_speed: self.base_speed as nat,
            score: self.score as nat,
            lives: self.lives as nat,
            tick_count: self.tick_count as nat,
            running: self.running,
            direction: self.direction,
            pending: self.pending,
            body: self.body@,
            head: self.head,
            food: self.food,
        }
    }
}

impl Game {
    /// The stored board agrees with the state, and the state is well formed.
    pub closed spec fn wf(&self) -> bool {
        &&& self@.wf()
        &&& self.grid@ == self@.grid()
    }

    /// Row-major index of a cell on the board.
    fn index(&self, p: Pos) -> (r: usize)
        requires
            dims_ok(self.height as nat, self.width as nat),
            p.x < self.width,
            p.y < self.height,
        ensures
            r == index_of(self.width as nat, p),
            r < self.height * self.width,
    {
        proof {
            lemma_pos_index(self.height as nat, self.width as nat, p);
        }
        p.y * self.width + p.x
    }

    /// Store `kind` at `p` and ask for the cell to be repainted.
    fn set_cell(&mut self, p: Pos, kind: CellKind, out: &mut Vec<Notice>)
        requires
            dims_ok(old(self).height as nat, old(self).width as nat),
            old(self).grid@.len() == old(self).height * old(self).width,
            p.x < old(self).width,
            p.y < old(self).height,
        ensures
            final(self)@ == old(self)@,
            final(self).grid@ == old(self).grid@.update(index_of(old(self).width as nat, p), kind),
            final(self).grid@.len() == old(self).grid@.len(),
            final(out)@ == old(out)@.push(draw_at(p, kind)),
    {
        let i = self.index(p);
        self.grid.set(i, kind);
        out.push(Notice::Draw { row: p.y, col: p.x, kind });
    }

    /// Store `kind` in every cell of row `row`.
    fn fill_row(&mut self, row: usize, kind: CellKind)
        requires
            dims_ok(old(self).height as nat, old(self).width as nat),
            old(self).grid@.len() == old(self).height * old(self).width,
            row < old(self).height,
        ensures
            final(self)@ == old(self)@,
            final(self).grid@.len() == old(self).grid@.len(),
            forall|i: int|
                0 <= i < old(self).grid@.len() ==> #[trigger] final(self).grid@[i] == if pos_of(
                    old(self).width as nat,
                    i,
                ).y == row {
                    kind
                } else {
                    old(self).grid@[i]
                },
    {
        let ghost w = self.width as nat;
        let ghost start = self.grid@;
        proof {
            lemma_indexing(self.height as nat, w);
        }
        let mut x: usize = 0;
        while x < self.width
            invariant
                self@ == old(self)@,
                dims_ok(self.height as nat, w),
                self.width == w,
                row < self.height,
                x <= w,
                self.grid@.len() == start.len(),
                start.len() == self.height * w,
                forall|i: int|
                    0 <= i < start.len() ==> #[trigger] self.grid@[i] == if pos_of(w, i).y == row && pos_of(
                        w,
                        i,
                    ).x < x {
                        kind
                    } else {
                        start[i]
                    },
            decreases w - x,
        {
            proof {
                lemma_indexing(self.height as nat, w);
            }
            let i = self.index(Pos { x, y: row });
            self.grid.set(i, kind);
            proof {
                assert(pos_of(w, i as int) == Pos { x, y: row });
            }
            x = x + 1;
        }
    }

    /// Store `kind` in every cell of column `col`.
    fn fill_col(&mut self, col: usize, kind: CellKind)
        requires
            dims_ok(old(self).height as nat, old(self).width as nat),
            old(self).grid@.len() == old(self).height * old(self).width,
            col < old(self).width,
        ensures
            final(self)@ == old(self)@,
            final(self).grid@.len() == old(self).grid@.len(),
            forall|i: int|
                0 <= i < old(self).grid@.len() ==> #[trigger] final(self).grid@[i] == if pos_of(
                    old(self).width as nat,
                    i,
                ).x == col {
                    kind
                } else {
                    old(self).grid@[i]
                },
    {
        let ghost w = self.width as nat;
        let ghost start = self.grid@;
        proof {
            lemma_indexing(self.height as nat, w);
        }
        let mut y: usize = 0;
        while y < self.height
            invariant
                self@ == old(self)@,
                dims_ok(self.height as nat, w),
                self.width == w,
                col < w,
                y <= self.height,
                self.grid@.len() == start.len(),
                start.len() == self.height * w,
                forall|i: int|
                    0 <= i < start.len() ==> #[trigger] self.grid@[i] == if pos_of(w, i).x == col && pos_of(
                        w,
                        i,
                    ).y < y {
                        kind
                    } else {
                        start[i]
                    },
            decreases self.height - y,
        {
            proof {
                lemma_indexing(self.height as nat, w);
            }
            let i = self.index(Pos { x: col, y });
            self.grid.set(i, kind);
            proof {
                assert(pos_of(w, i as int) == Pos { x: col, y });
            }
            y = y + 1;
        }
    }

    /// A board with its border and a fresh snake, and no food yet.
    fn fresh_board(height: usize, width: usize, base_speed: usize, lives: usize) -> (g: Game)
        requires
            dims_ok(height as nat, width as nat),
            1 <= lives,
        ensures
            g@ == GameView::fresh(height as nat, width as nat, base_speed as nat, lives as nat),
            g.grid@ == g@.grid(),
    {
        proof {
            lemma_dims(height as nat, width as nat);
            lemma_indexing(height as nat, width as nat);
        }
        let n = height * width;
        let mut grid: Vec<CellKind> = Vec::new();
        let mut i: usize = 0;
        while i < n
            invariant
                i <= n,
                grid@.len() == i,
                forall|j: int| 0 <= j < i ==> grid@[j] == CellKind::Empty,
            decreases n - i,
        {
            grid.push(CellKind::Empty);
            i = i + 1;
        }
        let cx = width / 2;
        let cy = height / 2;
        let mut body: Vec<Pos> = Vec::new();
        body.push(Pos { x: cx, y: cy - 2 });
        body.push(Pos { x: cx, y: cy - 1 });
        let mut g = Game {
            height,
            width,
            base_speed,
            score: 0,
            lives,
            tick_count: 0,
            running: true,
            direction: Direction::Down,
            pending: Direction::Down,
            body,
            head: Pos { x: cx, y: cy },
            food: None,
            grid,
        };
        g.fill_row(0, CellKind::Border);
        g.fill_row(height - 1, CellKind::Border);
        g.fill_col(0, CellKind::Border);
        g.fill_col(width - 1, CellKind::Border);
        let ghost bordered = g.grid@;
        let b0 = Pos { x: cx, y: cy - 2 };
        let b1 = Pos { x: cx, y: cy - 1 };
        let hd = Pos { x: cx, y: cy };
        let i0 = g.index(b0);
        let i1 = g.index(b1);
        let ih = g.index(hd);
        g.grid.set(i0, CellKind::Body);
        g.grid.set(i1, CellKind::Body);
        g.grid.set(ih, CellKind::Head);
        proof {
            let v = g@;
            assert(v.body =~= seq![b0, b1]);
            assert(v == GameView::fresh(height as nat, width as nat, base_speed as nat, lives as nat));
            assert forall|j: int| 0 <= j < n implies g.grid@[j] == v.grid()[j] by {
                let p = pos_of(width as nat, j);
                if on_edge(height as nat, width as nat, p) {
                } else if p == hd {
                } else if p == b0 || p == b1 {
                    assert(v.body[0] == b0 && v.body[1] == b1);
                } else {
                    assert(!v.body.contains(p)) by {
                        if v.body.contains(p) {
                            let k = choose|k: int| 0 <= k < v.body.len() && v.body[k] == p;
                        }
                    }
                }
            }
            assert(g.grid@ =~= v.grid());
        }
        g
    }

    /// A draw notice for every cell, in row-major order.
    pub fn draw_grid(&self) -> (out: Vec<Notice>)
        requires
            self.wf(),
        ensures
            out@ == self@.full_draw(),
    {
        let mut out: Vec<Notice> = Vec::new();
        self.draw_grid_into(&mut out);
        out
    }

    fn draw_grid_into(&self, out: &mut Vec<Notice>)
        requires
            dims_ok(self.height as nat, self.width as nat),
            self.grid@ == self@.grid(),
        ensures
            final(out)@ == old(out)@ + self@.full_draw(),
    {
        let ghost start = out@;
        let n = self.height * self.width;
        let mut i: usize = 0;
        while i < n
            invariant
                dims_ok(self.height as nat, self.width as nat),
                n == self.height * self.width,
                self.grid@ == self@.grid(),
                i <= n,
                out@ == start + self@.full_draw().subrange(0, i as int),
            decreases n - i,
        {
            proof {
                lemma_dims(self.height as nat, self.width as nat);
            }
            let kind = self.grid[i];
            out.push(Notice::Draw { row: i / self.width, col: i % self.width, kind });
            proof {
                assert(self@.full_draw().subrange(0, i + 1) =~= self@.full_draw().subrange(0, i as int).push(
                    self@.full_draw()[i as int],
                ));
            }
            i = i + 1;
        }
        proof {
            assert(self@.full_draw().subrange(0, n as int) =~= self@.full_draw());
        }
    }

    /// Put food on the free cell chosen by `rand` among all free cells in row-major order.
    /// On a full board the game stops instead.
    fn place_food(&mut self, rand: usize, out: &mut Vec<Notice>) -> (r: Result<Pos, GameError>)
        requires
            old(self)@.shape_ok(),
            old(self)@.food is None,
            old(self).grid@ == old(self)@.grid(),
        ensures
            final(self).wf(),
            final(self)@ == old(self)@.placed(rand),
            final(out)@ == old(out)@ + final(self)@.food_notices(),
            match r {
                Ok(p) => final(self)@.food == Some(p),
                Err(e) => e == GameError::BoardFull && old(self)@.free_cells() == 0,
            },
    {
        let ghost g = self.grid@;
        proof {
            lemma_placed(self@, rand);
            lemma_dims(self.height as nat, self.width as nat);
        }
        let n = self.grid.len();
        let mut count: usize = 0;
        let mut i: usize = 0;
        while i < n
            invariant
                n == g.len(),
                self.grid@ == g,
                i <= n,
                count == empties(g, i as int),
                count <= i,
            decreases n - i,
        {
            if self.grid[i] == CellKind::Empty {
                count = count + 1;
            }
            i = i + 1;
        }
        if count == 0 {
            self.running = false;
            proof {
                assert(self.grid@ =~= self@.grid());
            }
            out.push(Notice::BoardFull);
            return Err(GameError::BoardFull);
        }
        let k = rand % count;
        proof {
            lemma_kth_empty_exists(g, n as int, k as nat);
        }
        let mut i: usize = 0;
        let mut seen: usize = 0;
        loop
            invariant
                n == g.len(),
                self.grid@ == g,
                count == empties(g, n as int),
                k < count,
                i < n,
                seen == empties(g, i as int),
                seen <= k,
            ensures
                is_kth_empty(g, i as int, k as nat),
                self.grid@ == g,
                n == g.len(),
                i < n,
            decreases n - i,
        {
            if self.grid[i] == CellKind::Empty {
                if seen == k {
                    break;
                }
                seen = seen + 1;
            }
            i = i + 1;
        }
        proof {
            lemma_kth_empty_unique(g, i as int, kth_empty(g, k as nat), k as nat);
            lemma_indexing(self.height as nat, self.width as nat);
            lemma_place_grid(self@, pos_of(self.width as nat, i as int));
        }
        let p = Pos { x: i % self.width, y: i / self.width };
        self.grid.set(i, CellKind::Food);
        self.food = Some(p);
        out.push(Notice::Draw { row: p.y, col: p.x, kind: CellKind::Food });
        out.push(Notice::FoodAdded);
        Ok(p)
    }

    /// Replace the board with a fresh one holding `lives` lives, and place food.
    fn restart(&mut self, lives: usize, rand: usize, out: &mut Vec<Notice>)
        requires
            dims_ok(old(self).height as nat, old(self).width as nat),
            1 <= lives,
        ensures
            final(self).wf(),
            final(self)@ == GameView::fresh(
                old(self).height as nat,
                old(self).width as nat,
                old(self).base_speed as nat,
                lives as nat,
            ).placed(rand),
            final(out)@ == old(out)@ + GameView::fresh_notices(
                old(self).height as nat,
                old(self).width as nat,
                old(self).base_speed as nat,
                lives as nat,
                rand,
            ),
    {
        let ghost start = out@;
        proof {
            lemma_fresh(self.height as nat, self.width as nat, self.base_speed as nat, lives as nat);
        }
        *self = Game::fresh_board(self.height, self.width, self.base_speed, lives);
        out.push(Notice::Lives(lives));
        out.push(Notice::Score(0));
        self.draw_grid_into(out);
        let ghost fresh = self@;
        let _ = self.place_food(rand, out);
        proof {
            assert(out@ =~= start + GameView::fresh_notices(
                fresh.height,
                fresh.width,
                fresh.base_speed,
                lives as nat,
                rand,
            ));
        }
    }

    /// A new game on a `height × width` board: border around the edge, the snake in the middle
    /// heading down, food on the free cell chosen by `rand`, three lives.
    /// Fails with `InvalidDimensions` on a board too small for border and snake (fewer than
    /// five columns, or fewer than six rows: the snake starts three cells tall, its tail two
    /// rows above the middle row), or one whose cell count overflows `usize`.
    pub fn init(height: usize, width: usize, base_speed: usize, rand: usize) -> (r: Result<Game, GameError>)
        ensures
            r is Ok <==> dims_ok(height as nat, width as nat),
            r matches Err(e) ==> e == GameError::InvalidDimensions,
            r matches Ok(g) ==> g.wf() && g@ == GameView::fresh(
                height as nat,
                width as nat,
                base_speed as nat,
                START_LIVES as nat,
            ).placed(rand),
    {
        if height < 6 || width < 5 {
            return Err(GameError::InvalidDimensions);
        }
        match height.checked_mul(width) {
            None => Err(GameError::InvalidDimensions),
            Some(_) => {
                let mut g = Game::fresh_board(height, width, base_speed, START_LIVES);
                let mut out: Vec<Notice> = Vec::new();
                g.restart(START_LIVES, rand, &mut out);
                Ok(g)
            },
        }
    }

    /// Start over on the same board: score zero, three lives, a fresh snake and new food.
    pub fn reset(&mut self, rand: usize) -> (out: Vec<Notice>)
        requires
            old(self).wf(),
        ensures
            final(self).wf(),
            final(self)@ == GameView::fresh(
                old(self)@.height,
                old(self)@.width,
                old(self)@.base_speed,
                START_LIVES as nat,
            ).placed(rand),
            out@ == GameView::fresh_notices(
                old(self)@.height,
                old(self)@.width,
                old(self)@.base_speed,
                START_LIVES as nat,
                rand,
            ),
    {
        let mut out: Vec<Notice> = Vec::new();
        self.restart(START_LIVES, rand, &mut out);
        proof {
            assert(out@ =~= seq![] + out@);
        }
        out
    }

    /// Queue heading `d` for the next move. Ignored once the game is over, and when `d`
    /// reverses the last move.
    pub fn handle_input(&mut self, d: Direction)
        requires
            old(self).wf(),
        ensures
            final(self).wf(),
            final(self)@ == old(self)@.input(d),
    {
        if self.running && d != self.direction.opposite() {
            self.pending = d;
            proof {
                assert(self.grid@ =~= self@.grid());
            }
        }
    }

    /// Ticks per move for the current length: `max(1, base_speed - length / 2)`.
    fn speed(&self) -> (r: usize)
        ensures
            r == self@.speed(),
            r >= 1,
    {
        let half = self.body.len() / 2;
        if self.base_speed > half {
            self.base_speed - half
        } else {
            1
        }
    }

    /// The head steps onto an empty cell and the tail follows.
    fn move_to(&mut self, t: Pos, out: &mut Vec<Notice>)
        requires
            old(self).wf(),
            old(self)@.running,
            t == old(self)@.target(),
            old(self)@.kind_of(t) is Empty,
            old(self).direction == old(self).pending,
        ensures
            final(self).wf(),
            final(self)@ == old(self)@.advanced(0),
            final(out)@ == old(out)@ + old(self)@.advance_notices(0),
    {
        let ghost v = self@;
        proof {
            lemma_target(v);
            lemma_advanced(v, 0);
            lemma_move_grid(v);
            assert(v.snake()[0] == v.body[0]);
            assert(v.snake()[v.snake().len() - 1] == v.head);
        }
        let tail = self.body.remove(0);
        self.set_cell(tail, CellKind::Empty, out);
        let h = self.head;
        self.set_cell(h, CellKind::Body, out);
        self.body.push(h);
        self.head = t;
        self.set_cell(t, CellKind::Head, out);
        proof {
            assert(self@.body =~= v.body.drop_first().push(v.head));
            assert(self@ == v.advanced(0));
            assert(out@ =~= old(out)@ + v.advance_notices(0));
        }
    }

    /// The head steps onto the food: the snake grows by one, the score by one, and new food
    /// is placed on the free cell chosen by `rand`.
    fn grow_to(&mut self, t: Pos, rand: usize, out: &mut Vec<Notice>)
        requires
            old(self).wf(),
            old(self)@.running,
            t == old(self)@.target(),
            old(self)@.kind_of(t) is Food,
            old(self).direction == old(self).pending,
        ensures
            final(self).wf(),
            final(self)@ == old(self)@.advanced(rand),
            final(out)@ == old(out)@ + old(self)@.advance_notices(rand),
    {
        let ghost v = self@;
        proof {
            lemma_target(v);
            lemma_advanced(v, rand);
            lemma_grow_grid(v);
            lemma_snake_fits(v);
            assert(v.snake()[v.snake().len() - 1] == v.head);
        }
        self.score = self.score + 1;
        out.push(Notice::AteFood);
        out.push(Notice::Score(self.score));
        let h = self.head;
        self.set_cell(h, CellKind::Body, out);
        self.body.push(h);
        self.head = t;
        self.food = None;
        self.set_cell(t, CellKind::Head, out);
        let ghost grown = self@;
        proof {
            assert(self@.body =~= v.body.push(v.head));
            assert(self.grid@ =~= self@.grid());
            assert(grown.shape_ok()) by {
                assert(grown.snake() =~= v.snake().push(t));
                assert forall|i: int| 0 <= i < grown.snake().len()
                    implies crate::board::inside(grown.height, grown.width, #[trigger] grown.snake()[i]) by {
                    if i < grown.snake().len() - 1 {
                        assert(grown.snake()[i] == v.snake()[i]);
                    }
                }
            }
        }
        let _ = self.place_food(rand, out);
        proof {
            assert(out@ =~= old(out)@ + v.advance_notices(rand));
        }
    }

    /// The head hits the border or the body: a life is lost. With lives left the board starts
    /// over, else the game ends.
    fn die(&mut self, rand: usize, out: &mut Vec<Notice>)
        requires
            old(self).wf(),
            old(self)@.running,
            !(old(self)@.kind_of(old(self)@.target()) is Empty),
            !(old(self)@.kind_of(old(self)@.target()) is Food),
            old(self).direction == old(self).pending,
        ensures
            final(self).wf(),
            final(self)@ == old(self)@.advanced(rand),
            final(out)@ == old(out)@ + old(self)@.advance_notices(rand),
    {
        let ghost v = self@;
        proof {
            lemma_advanced(v, rand);
        }
        self.lives = self.lives - 1;
        if self.lives > 0 {
            out.push(Notice::Died);
            let lives = self.lives;
            self.restart(lives, rand, out);
        } else {
            self.running = false;
            proof {
                assert(self.grid@ =~= self@.grid());
            }
            out.push(Notice::Lives(0));
            out.push(Notice::GameOver);
        }
        proof {
            assert(out@ =~= old(out)@ + v.advance_notices(rand));
        }
    }

    /// One step of the game clock. A running game counts the tick; when the count is a multiple
    /// of the speed the snake moves one cell along the queued heading: onto an empty cell it
    /// just moves, onto food it grows and new food is placed on the free cell chosen by `rand`,
    /// into the border or its body it dies. A stopped game does nothing.
    pub fn tick(&mut self, rand: usize) -> (out: Vec<Notice>)
        requires
            old(self).wf(),
        ensures
            final(self).wf(),
            final(self)@ == old(self)@.ticked(rand),
            out@ == old(self)@.tick_notices(rand),
    {
        let mut out: Vec<Notice> = Vec::new();
        if !self.running {
            return out;
        }
        let ghost v = self@;
        out.push(Notice::RenderPre);
        self.tick_count = if self.tick_count == usize::MAX {
            0
        } else {
            self.tick_count + 1
        };
        proof {
            assert(self.grid@ =~= self@.grid());
        }
        let speed = self.speed();
        if self.tick_count % speed == 0 {
            let ghost c = self@;
            proof {
                lemma_target(c);
            }
            self.direction = self.pending;
            proof {
                assert(self.grid@ =~= self@.grid());
            }
            let t = step(self.head, self.pending);
            let kind = self.grid[self.index(t)];
            proof {
                lemma_indexing(self.height as nat, self.width as nat);
                assert(kind == c.kind_of(t));
            }
            if kind == CellKind::Empty {
                self.move_to(t, &mut out);
            } else if kind == CellKind::Food {
                self.grow_to(t, rand, &mut out);
            } else {
                self.die(rand, &mut out);
            }
        }
        out.push(Notice::RenderPost);
        proof {
            assert(out@ =~= v.tick_notices(rand));
        }
        out
    }

    /// Rows of the board.
    pub fn height(&self) -> (r: usize)
        ensures
            r == self@.height,
    {
        self.height
    }

    /// Columns of the board.
    pub fn width(&self) -> (r: usize)
        ensures
            r == self@.width,
    {
        self.width
    }

    /// Ticks per move of a snake of length zero.
    pub fn base_speed(&self) -> (r: usize)
        ensures
            r == self@.base_speed,
    {
        self.base_speed
    }

    /// Food eaten since the board last started.
    pub fn score(&self) -> (r: usize)
        ensures
            r == self@.score,
    {
        self.score
    }

    /// Lives left.
    pub fn lives(&self) -> (r: usize)
        ensures
            r == self@.lives,
    {
        self.lives
    }

    /// Ticks since the board last started.
    pub fn tick_count(&self) -> (r: usize)
        ensures
            r == self@.tick_count,
    {
        self.tick_count
    }

    /// Whether the game goes on.
    pub fn running(&self) -> (r: bool)
        ensures
            r == self@.running,
    {
        self.running
    }

    /// The heading of the last move.
    pub fn direction(&self) -> (r: Direction)
        ensures
            r == self@.direction,
    {
        self.direction
    }

    /// The heading the next move will take.
    pub fn pending(&self) -> (r: Direction)
        ensures
            r == self@.pending,
    {
        self.pending
    }

    /// Where the head is.
    pub fn head(&self) -> (r: Pos)
        ensures
            r == self@.head,
    {
        self.head
    }

    /// Where the food is; none only once the board is full.
    pub fn food(&self) -> (r: Option<Pos>)
        ensures
            r == self@.food,
    {
        self.food
    }

    /// The body cells, tail first, the cell behind the head last.
    pub fn body(&self) -> (r: Vec<Pos>)
        ensures
            r@ == self@.body,
    {
        let mut r: Vec<Pos> = Vec::new();
        let mut i: usize = 0;
        while i < self.body.len()
            invariant
                i <= self.body@.len(),
                r@ == self.body@.subrange(0, i as int),
            decreases self.body@.len() - i,
        {
            r.push(self.body[i]);
            proof {
                assert(self.body@.subrange(0, i + 1) =~= self.body@.subrange(0, i as int).push(self.body@[i as int]));
            }
            i = i + 1;
        }
        proof {
            assert(self.body@.subrange(0, i as int) =~= self.body@);
        }
        r
    }

    /// What cell `(x, y)` holds, or nothing off the board.
    pub fn cell(&self, x: usize, y: usize) -> (r: Option<CellKind>)
        requires
            self.wf(),
        ensures
            r == if x < self@.width && y < self@.height {
                Some(self@.kind_of(Pos { x, y }))
            } else {
                None::<CellKind>
            },
    {
        if x < self.width && y < self.height {
            let p = Pos { x, y };
            proof {
                lemma_indexing(self.height as nat, self.width as nat);
            }
            Some(self.grid[self.index(p)])
        } else {
            None
        }
    }
}

} // verus!
