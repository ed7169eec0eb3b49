use vstd::prelude::*;
use vstd::arithmetic::div_mod::{lemma_fundamental_div_mod, lemma_fundamental_div_mod_converse};

verus! {

/// A cell of the board, by what occupies it.
#[derive(Clone, Copy, Debug, PartialEq, Eq, Structural)]
pub enum CellKind {
    Empty,
    Border,
    Head,
    Body,
    Food,
}

/// A board coordinate: `x` is the column, `y` the row.
#[derive(Clone, Copy, Debug, PartialEq, Eq, Structural)]
pub struct Pos {
    pub x: usize,
    pub y: usize,
}

/// A heading of the snake.
#[derive(Clone, Copy, Debug, PartialEq, Eq, Structural)]
pub enum Direction {
    Up,
    Down,
    Left,
    Right,
}

impl Direction {
    pub open spec fn reverse(self) -> Direction {
        match self {
            Direction::Up => Direction::Down,
            Direction::Down => Direction::Up,
            Direction::Left => Direction::Right,
            Direction::Right => Direction::Left,
        }
    }

    /// The heading that points the other way.
    pub fn opposite(self) -> (r: Direction)
        ensures
            r == self.reverse(),
    {
        match self {
            Direction::Up => Direction::Down,
            Direction::Down => Direction::Up,
            Direction::Left => Direction::Right,
            Direction::Right => Direction::Left,
        }
    }
}

/// The neighbour of `p` one step towards `d` (rows grow downwards).
pub open spec fn next_pos(p: Pos, d: Direction) -> Pos {
    match d {
        Direction::Up => Pos { x: p.x, y: (p.y - 1) as usize },
        Direction::Down => Pos { x: p.x, y: (p.y + 1) as usize },
        Direction::Left => Pos { x: (p.x - 1) as usize, y: p.y },
        Direction::Right => Pos { x: (p.x + 1) as usize, y: p.y },
    }
}

/// One step from `p` towards `d`; `p` lies off the outer edge, so the step stays in range.
pub fn step(p: Pos, d: Direction) -> (r: Pos)
    requires
        1 <= p.x < usize::MAX,
        1 <= p.y < usize::MAX,
    ensures
        r == next_pos(p, d),
{
    match d {
        Direction::Up => Pos { x: p.x, y: p.y - 1 },
        Direction::Down => Pos { x: p.x, y: p.y + 1 },
        Direction::Left => Pos { x: p.x - 1, y: p.y },
        Direction::Right => Pos { x: p.x + 1, y: p.y },
    }
}

/// `p` lies on the outer ring of a `height × width` board.
pub open spec fn on_edge(height: nat, width: nat, p: Pos) -> bool {
    p.x == 0 || p.y == 0 || p.x == width - 1 || p.y == height - 1
}

/// `p` lies strictly inside the outer ring.
pub open spec fn inside(height: nat, width: nat, p: Pos) -> bool {
    1 <= p.x < width - 1 && 1 <= p.y < height - 1
}

/// Row-major index of `p` on a board `width` cells wide.
pub open spec fn index_of(width: nat, p: Pos) -> int {
    p.y * width + p.x
}

/// The coordinate of row-major index `i`.
pub open spec fn pos_of(width: nat, i: int) -> Pos {
    Pos { x: (i % (width as int)) as usize, y: (i / (width as int)) as usize }
}

/// Number of `Empty` cells among the first `n` of `g`.
pub open spec fn empties(g: Seq<CellKind>, n: int) -> nat
    decreases n,
{
    if n <= 0 {
        0
    } else {
        empties(g, n - 1) + if g[n - 1] is Empty { 1nat } else { 0nat }
    }
}

/// Index `i` holds the `k`-th `Empty` cell of `g` (counting from zero).
pub open spec fn is_kth_empty(g: Seq<CellKind>, i: int, k: nat) -> bool {
    0 <= i < g.len() && g[i] is Empty && empties(g, i) == k
}

/// The index of the `k`-th `Empty` cell of `g`.
pub open spec fn kth_empty(g: Seq<CellKind>, k: nat) -> int {
    choose|i: int| is_kth_empty(g, i, k)
}

pub proof fn lemma_pos_index(height: nat, width: nat, p: Pos)
    requires
        p.x < width,
        p.y < height,
        height * width <= usize::MAX,
    ensures
        0 <= index_of(width, p) < height * width,
        pos_of(width, index_of(width, p)) == p,
{
    let i = index_of(width, p);
    assert(0 <= i < height * width) by (nonlinear_arith)
        requires
            i == p.y * width + p.x,
            p.x < width,
            p.y < height,
            0 <= p.y,
    ;
    lemma_fundamental_div_mod_converse(i, width as int, p.y as int, p.x as int);
}

pub proof fn lemma_index_pos(height: nat, width: nat, i: int)
    requires
        0 <= i < height * width,
        height * width <= usize::MAX,
    ensures
        pos_of(width, i).x < width,
        pos_of(width, i).y < height,
        index_of(width, pos_of(width, i)) == i,
{
    assert(width > 0) by (nonlinear_arith)
        requires
            0 <= i < height * width,
    ;
    lemma_fundamental_div_mod(i, width as int);
    let q = i / (width as int);
    let r = i % (width as int);
    assert(0 <= r < width);
    assert(0 <= q < height) by (nonlinear_arith)
        requires
            i == width * q + r,
            0 <= r < width,
            0 <= i < height * width,
    ;
    assert(q <= usize::MAX && q * width == width * q) by (nonlinear_arith)
        requires
            0 <= q < height,
            width > 0,
            height * width <= usize::MAX,
    ;
}

/// Row-major indexing is a bijection between the cells and `0 .. height * width`.
pub proof fn lemma_indexing(height: nat, width: nat)
    requires
        height * width <= usize::MAX,
    ensures
        forall|p: Pos|
            p.x < width && p.y < height ==> 0 <= #[trigger] index_of(width, p) < height * width
                && pos_of(width, index_of(width, p)) == p,
        forall|i: int|
            0 <= i < height * width ==> (#[trigger] pos_of(width, i)).x < width && pos_of(width, i).y < height
                && index_of(width, pos_of(width, i)) == i,
{
    assert forall|p: Pos| p.x < width && p.y < height implies 0 <= #[trigger] index_of(width, p) < height * width
        && pos_of(width, index_of(width, p)) == p by {
        lemma_pos_index(height, width, p);
    }
    assert forall|i: int| 0 <= i < height * width implies (#[trigger] pos_of(width, i)).x < width
        && pos_of(width, i).y < height && index_of(width, pos_of(width, i)) == i by {
        lemma_index_pos(height, width, i);
    }
}

pub proof fn lemma_empties_monotone(g: Seq<CellKind>, a: int, b: int)
    requires
        a <= b,
    ensures
        empties(g, a) <= empties(g, b),
    decreases b - a,
{
    if a < b {
        lemma_empties_monotone(g, a, b - 1);
    }
}

pub proof fn lemma_kth_empty_unique(g: Seq<CellKind>, i: int, j: int, k: nat)
    requires
        is_kth_empty(g, i, k),
        is_kth_empty(g, j, k),
    ensures
        i == j,
{
    if i < j {
        lemma_empties_monotone(g, i + 1, j);
    } else if j < i {
        lemma_empties_monotone(g, j + 1, i);
    }
}

pub proof fn lemma_kth_empty_exists(g: Seq<CellKind>, n: int, k: nat)
    requires
        0 <= n <= g.len(),
        k < empties(g, n),
    ensures
        is_kth_empty(g, kth_empty(g, k), k),
        kth_empty(g, k) < n,
    decreases n,
{
    if k < empties(g, n - 1) {
        lemma_kth_empty_exists(g, n - 1, k);
    } else {
        assert(is_kth_empty(g, n - 1, k));
        lemma_kth_empty_unique(g, n - 1, kth_empty(g, k), k);
    }
}

} // verus!
