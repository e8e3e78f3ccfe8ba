//! Shapes, the catalog of the seven canonical pieces, the bag generator and
//! positioned pieces.
use crate::input::{parse_rotation, rotation_named, Rotation};
use rand::seq::SliceRandom;
use vstd::prelude::*;

verus! {

/// A shape fills a `SHAPE_SIZE` by `SHAPE_SIZE` grid.
pub const SHAPE_SIZE: usize = 4;

/// Number of canonical shapes in the catalog.
pub const N_SHAPES: usize = 7;

/// The mathematical content of a shape: its name and its 4x4 occupancy mask,
/// indexed by row then column.
pub struct ShapeView {
    pub name: char,
    pub mask: Seq<Seq<bool>>,
}

/// A 4x4 occupancy mask in spec form.
pub open spec fn is_mask(m: Seq<Seq<bool>>) -> bool {
    &&& m.len() == SHAPE_SIZE
    &&& forall|i: int| 0 <= i < SHAPE_SIZE ==> (#[trigger] m[i]).len() == SHAPE_SIZE
}

/// The mask turned a quarter turn clockwise: cell `(i, j)` moves to `(j, 3 - i)`.
pub open spec fn rotated_clockwise(m: Seq<Seq<bool>>) -> Seq<Seq<bool>> {
    Seq::new(SHAPE_SIZE as nat, |r: int| Seq::new(SHAPE_SIZE as nat, |c: int| m[3 - c][r]))
}

/// The mask turned a quarter turn counter-clockwise: cell `(i, j)` moves to `(3 - j, i)`.
pub open spec fn rotated_anti_clockwise(m: Seq<Seq<bool>>) -> Seq<Seq<bool>> {
    Seq::new(SHAPE_SIZE as nat, |r: int| Seq::new(SHAPE_SIZE as nat, |c: int| m[c][3 - r]))
}

/// One row of a catalog mask, written with 0 and 1.
pub open spec fn mask_row(a: int, b: int, c: int, d: int) -> Seq<bool> {
    seq![a == 1, b == 1, c == 1, d == 1]
}

/// Name of the catalog shape at index `k`.
pub open spec fn shape_name(k: int) -> char {
    if k == 0 {
        'I'
    } else if k == 1 {
        'J'
    } else if k == 2 {
        'L'
    } else if k == 3 {
        'O'
    } else if k == 4 {
        'S'
    } else if k == 5 {
        'T'
    } else {
        'Z'
    }
}

/// Index in the catalog of the shape called `name`, or -1 when there is none.
pub open spec fn shape_index(name: char) -> int {
    if name == 'I' {
        0
    } else if name == 'J' {
        1
    } else if name == 'L' {
        2
    } else if name == 'O' {
        3
    } else if name == 'S' {
        4
    } else if name == 'T' {
        5
    } else if name == 'Z' {
        6
    } else {
        -1
    }
}

pub open spec fn is_shape_name(name: char) -> bool {
    shape_index(name) >= 0
}

/// Mask of the catalog shape at index `k`, in its initial orientation.
pub open spec fn catalog_mask(k: int) -> Seq<Seq<bool>> {
    if k == 0 {
        seq![mask_row(0, 0, 0, 0), mask_row(0, 0, 0, 0), mask_row(1, 1, 1, 1), mask_row(0, 0, 0, 0)]
    } else if k == 1 {
        seq![mask_row(0, 0, 0, 0), mask_row(0, 1, 1, 1), mask_row(0, 0, 0, 1), mask_row(0, 0, 0, 0)]
    } else if k == 2 {
        seq![mask_row(0, 0, 0, 0), mask_row(0, 1, 1, 1), mask_row(0, 1, 0, 0), mask_row(0, 0, 0, 0)]
    } else if k == 3 {
        seq![mask_row(0, 0, 0, 0), mask_row(0, 1, 1, 0), mask_row(0, 1, 1, 0), mask_row(0, 0, 0, 0)]
    } else if k == 4 {
        seq![mask_row(0, 0, 0, 0), mask_row(0, 0, 1, 1), mask_row(0, 1, 1, 0), mask_row(0, 0, 0, 0)]
    } else if k == 5 {
        seq![mask_row(0, 0, 0, 0), mask_row(0, 1, 1, 1), mask_row(0, 0, 1, 0), mask_row(0, 0, 0, 0)]
    } else {
        seq![mask_row(0, 0, 0, 0), mask_row(0, 1, 1, 0), mask_row(0, 0, 1, 1), mask_row(0, 0, 0, 0)]
    }
}

/// The catalog shape at index `k`.
pub open spec fn catalog_shape(k: int) -> ShapeView {
    ShapeView { name: shape_name(k), mask: catalog_mask(k) }
}

/// A named shape with a 4x4 occupancy mask. Rotation replaces the mask; no
/// orientation counter is kept beside it.
#[derive(Clone, Copy)]
pub struct TetrominoShape {
    name: char,
    shape: [[bool; SHAPE_SIZE]; SHAPE_SIZE],
}

impl View for TetrominoShape {
    type V = ShapeView;

    closed spec fn view(&self) -> ShapeView {
        ShapeView {
            name: self.name,
            mask: Seq::new(SHAPE_SIZE as nat, |i: int| Seq::new(SHAPE_SIZE as nat, |j: int| self.shape[i][j])),
        }
    }
}

/// The mask has at least one occupied cell.
pub open spec fn mask_nonempty(m: Seq<Seq<bool>>) -> bool {
    exists|i: int, j: int| 0 <= i < SHAPE_SIZE && 0 <= j < SHAPE_SIZE && #[trigger] m[i][j]
}

spec fn grid_has_cell(g: [[bool; SHAPE_SIZE]; SHAPE_SIZE]) -> bool {
    exists|i: int, j: int| 0 <= i < SHAPE_SIZE && 0 <= j < SHAPE_SIZE && #[trigger] g[i][j]
}

impl TetrominoShape {
    #[verifier::type_invariant]
    spec fn well_formed(&self) -> bool {
        grid_has_cell(self.shape) && is_shape_name(self.name)
    }

    /// The mask of every shape is 4x4.
    pub proof fn lemma_mask_is_square(&self)
        ensures
            is_mask(self@.mask),
    {
    }

    /// Turns the mask a quarter turn clockwise.
    pub fn rotate_clockwise(&mut self)
        ensures
            final(self)@.name == old(self)@.name,
            final(self)@.mask == rotated_clockwise(old(self)@.mask),
    {
        let mut rotated_shape: [[bool; SHAPE_SIZE]; SHAPE_SIZE] = [[false; SHAPE_SIZE]; SHAPE_SIZE];
        for i in 0..SHAPE_SIZE
            invariant
                forall|r: int, c: int|
                    0 <= r < 4 && 3 - i < c < 4 ==> rotated_shape[r][c] == self.shape[3 - c][r],
        {
            for j in 0..SHAPE_SIZE
                invariant
                    0 <= i < 4,
                    forall|r: int, c: int|
                        0 <= r < 4 && 3 - i < c < 4 ==> rotated_shape[r][c] == self.shape[3 - c][r],
                    forall|r: int| 0 <= r < j ==> rotated_shape[r][3 - i] == self.shape[i as int][r],
            {
                rotated_shape[j][SHAPE_SIZE - 1 - i] = self.shape[i][j];
            }
        }
        let ghost before = *self;
        proof {
            use_type_invariant(&*self);
            let (a, b) = choose|a: int, b: int| 0 <= a < 4 && 0 <= b < 4 && #[trigger] before.shape[a][b];
            assert(rotated_shape[b][3 - a]);
            assert(grid_has_cell(rotated_shape));
        }
        self.shape = rotated_shape;
        assert(self@.mask =~~= rotated_clockwise(before@.mask));
    }

    /// Turns the mask a quarter turn counter-clockwise.
    pub fn rotate_anti_clockwise(&mut self)
        ensures
            final(self)@.name == old(self)@.name,
            final(self)@.mask == rotated_anti_clockwise(old(self)@.mask),
    {
        let mut rotated_shape: [[bool; SHAPE_SIZE]; SHAPE_SIZE] = [[false; SHAPE_SIZE]; SHAPE_SIZE];
        for i in 0..SHAPE_SIZE
            invariant
                forall|r: int, c: int| 0 <= r < 4 && 0 <= c < i ==> rotated_shape[r][c] == self.shape[c][3 - r],
        {
            for j in 0..SHAPE_SIZE
                invariant
                    0 <= i < 4,
                    forall|r: int, c: int|
                        0 <= r < 4 && 0 <= c < i ==> rotated_shape[r][c] == self.shape[c][3 - r],
                    forall|r: int| 3 - j < r < 4 ==> rotated_shape[r][i as int] == self.shape[i as int][3 - r],
            {
                rotated_shape[SHAPE_SIZE - 1 - j][i] = self.shape[i][j];
            }
        }
        let ghost before = *self;
        proof {
            use_type_invariant(&*self);
            let (a, b) = choose|a: int, b: int| 0 <= a < 4 && 0 <= b < 4 && #[trigger] before.shape[a][b];
            assert(rotated_shape[3 - b][a]);
            assert(grid_has_cell(rotated_shape));
        }
        self.shape = rotated_shape;
        assert(self@.mask =~~= rotated_anti_clockwise(before@.mask));
    }
}

/// Builds the catalog shape at index `k`.
pub fn catalog_entry(k: usize) -> (s: TetrominoShape)
    requires
        k < N_SHAPES,
    ensures
        s@ == catalog_shape(k as int),
{
    let (name, shape): (char, [[bool; SHAPE_SIZE]; SHAPE_SIZE]) = if k == 0 {
        (
            'I',
            [[false, false, false, false], [false, false, false, false], [true, true, true, true], [false, false, false, false]],
        )
    } else if k == 1 {
        (
            'J',
            [[false, false, false, false], [false, true, true, true], [false, false, false, true], [false, false, false, false]],
        )
    } else if k == 2 {
        (
            'L',
            [[false, false, false, false], [false, true, true, true], [false, true, false, false], [false, false, false, false]],
        )
    } else if k == 3 {
        (
            'O',
            [[false, false, false, false], [false, true, true, false], [false, true, true, false], [false, false, false, false]],
        )
    } else if k == 4 {
        (
            'S',
            [[false, false, false, false], [false, false, true, true], [false, true, true, false], [false, false, false, false]],
        )
    } else if k == 5 {
        (
            'T',
            [[false, false, false, false], [false, true, true, true], [false, false, true, false], [false, false, false, false]],
        )
    } else {
        (
            'Z',
            [[false, false, false, false], [false, true, true, false], [false, false, true, true], [false, false, false, false]],
        )
    };
    proof {
        if k == 0 {
            assert(shape[2][2]);
        } else {
            assert(shape[1][2]);
        }
        assert(grid_has_cell(shape));
    }
    let s = TetrominoShape { name, shape };
    assert(s@.mask =~~= catalog_mask(k as int));
    s
}

/// Whether `c` names a catalog shape.
pub fn is_catalog_name(c: char) -> (r: bool)
    ensures
        r == is_shape_name(c),
{
    c == 'I' || c == 'J' || c == 'L' || c == 'O' || c == 'S' || c == 'T' || c == 'Z'
}

/// The view of a bag generator: a permutation of the catalog indices and a
/// cursor into it.
pub struct BagView {
    pub order: Seq<u8>,
    pub cursor: nat,
}

/// `order` holds each of the seven catalog indices exactly once.
pub open spec fn is_bag_order(order: Seq<u8>) -> bool {
    &&& order.len() == N_SHAPES
    &&& order.no_duplicates()
    &&& forall|i: int| 0 <= i < N_SHAPES ==> (#[trigger] order[i]) < N_SHAPES
    &&& forall|k: u8| k < N_SHAPES ==> order.contains(k)
}

/// One draw of the generator: while the cursor is inside the permutation the
/// shape under it is returned and the cursor advances; once it has consumed all
/// seven, a fresh permutation is taken and its first shape returned.
pub open spec fn bag_draw(before: BagView, after: BagView, drawn: ShapeView) -> bool {
    &&& before.cursor < N_SHAPES ==> after.order == before.order && after.cursor == before.cursor + 1
    &&& before.cursor >= N_SHAPES ==> is_bag_order(after.order) && after.cursor == 1
    &&& drawn == catalog_shape(after.order[after.cursor - 1] as int)
}

/// Names of the seven shapes a permutation hands out, in order.
pub open spec fn window_names(order: Seq<u8>) -> Seq<char> {
    Seq::new(N_SHAPES as nat, |i: int| shape_name(order[i] as int))
}

/// Shuffles the permutation in place.
/// Relies on rand's `SliceRandom::shuffle` with `thread_rng`: it only swaps
/// elements, so the result is a permutation of its input. (`thread_rng` panics
/// only when the operating system cannot seed it.)
#[verifier::external_body]
fn shuffle_order(order: &mut [u8; N_SHAPES])
    ensures
        final(order)@.to_multiset() == old(order)@.to_multiset(),
{
    order.shuffle(&mut rand::thread_rng());
}

/// A generator of shapes that hands out all seven shapes of the catalog, in a
/// random order, before it hands out any of them again.
pub struct TetrominoShapeGenerator {
    shape_permutation: [u8; N_SHAPES],
    current_index: usize,
}

impl View for TetrominoShapeGenerator {
    type V = BagView;

    closed spec fn view(&self) -> BagView {
        BagView { order: self.shape_permutation@, cursor: self.current_index as nat }
    }
}

impl TetrominoShapeGenerator {
    pub closed spec fn wf(&self) -> bool {
        &&& is_bag_order(self.shape_permutation@)
        &&& self.current_index <= N_SHAPES
    }

    pub proof fn lemma_wf(&self)
        requires
            self.wf(),
        ensures
            is_bag_order(self@.order),
            self@.cursor <= N_SHAPES,
    {
    }

    pub fn new() -> (g: Self)
        ensures
            g.wf(),
            g@.cursor == 0,
    {
        let mut g = TetrominoShapeGenerator { shape_permutation: [0, 1, 2, 3, 4, 5, 6], current_index: 0 };
        proof {
            let o = g.shape_permutation@;
            assert(o =~= seq![0u8, 1, 2, 3, 4, 5, 6]);
            assert forall|k: u8| k < N_SHAPES implies o.contains(k) by {
                assert(o[k as int] == k);
            }
        }
        g.shuffle();
        g
    }

    fn shuffle(&mut self)
        requires
            old(self).wf(),
        ensures
            final(self).wf(),
            final(self).current_index == 0,
    {
        let ghost before = self.shape_permutation@;
        shuffle_order(&mut self.shape_permutation);
        self.current_index = 0;
        proof {
            let after = self.shape_permutation@;
            broadcast use vstd::seq_lib::group_to_multiset_ensures;
            before.lemma_multiset_has_no_duplicates();
            after.lemma_multiset_has_no_duplicates_conv();
            assert forall|i: int| 0 <= i < N_SHAPES implies (#[trigger] after[i]) < N_SHAPES by {
                assert(after.to_multiset().count(after[i]) > 0);
                assert(before.contains(after[i]));
            }
            assert forall|k: u8| k < N_SHAPES implies after.contains(k) by {
                assert(before.contains(k));
                assert(before.to_multiset().count(k) > 0);
            }
        }
    }

    /// Looks a shape up by its catalog name.
    pub fn make(name: char) -> (r: Result<TetrominoShape, ()>)
        ensures
            r is Ok <==> is_shape_name(name),
            r is Ok ==> r->Ok_0@ == catalog_shape(shape_index(name)),
    {
        let mut k: usize = 0;
        while k < N_SHAPES
            invariant
                k <= N_SHAPES,
                forall|i: int| 0 <= i < k ==> shape_name(i) != name,
            decreases N_SHAPES - k,
        {
            let shape = catalog_entry(k);
            if shape.name == name {
                return Ok(shape);
            }
            k += 1;
        }
        assert(shape_name(0) != name && shape_name(1) != name && shape_name(2) != name && shape_name(3)
            != name && shape_name(4) != name && shape_name(5) != name && shape_name(6) != name);
        Err(())
    }

    /// Draws the next shape of the bag, reshuffling once all seven have been drawn.
    pub fn make_random(&mut self) -> (s: TetrominoShape)
        requires
            old(self).wf(),
        ensures
            final(self).wf(),
            bag_draw(old(self)@, final(self)@, s@),
    {
        if self.current_index >= N_SHAPES {
            self.shuffle();
        }
        let result = catalog_entry(self.shape_permutation[self.current_index] as usize);
        self.current_index += 1;
        result
    }
}

/// The view of a piece: its shape and the `(row, column)` of its top-left corner.
pub struct PieceView {
    pub shape: ShapeView,
    pub pos: (int, int),
}

/// Board cells of the occupied mask cells of row `i` with column below `n`,
/// left to right.
pub open spec fn row_cells(m: Seq<Seq<bool>>, pos: (int, int), i: int, n: int) -> Seq<(int, int)>
    decreases n,
{
    if n <= 0 {
        Seq::empty()
    } else {
        let rest = row_cells(m, pos, i, n - 1);
        if m[i][n - 1] {
            rest.push((pos.0 + i, pos.1 + n - 1))
        } else {
            rest
        }
    }
}

/// Board cells of the occupied mask cells of the rows below `n`, in row-major order.
pub open spec fn mask_cells_upto(m: Seq<Seq<bool>>, pos: (int, int), n: int) -> Seq<(int, int)>
    decreases n,
{
    if n <= 0 {
        Seq::empty()
    } else {
        mask_cells_upto(m, pos, n - 1) + row_cells(m, pos, n - 1, SHAPE_SIZE as int)
    }
}

/// For each occupied cell `(i, j)` of the mask, in row-major order, the board
/// cell `(pos.0 + i, pos.1 + j)`.
pub open spec fn mask_cells(m: Seq<Seq<bool>>, pos: (int, int)) -> Seq<(int, int)> {
    mask_cells_upto(m, pos, SHAPE_SIZE as int)
}

/// The board cells a piece occupies.
pub open spec fn piece_cells(p: PieceView) -> Seq<(int, int)> {
    mask_cells(p.shape.mask, p.pos)
}

pub open spec fn as_points(v: Seq<(i32, i32)>) -> Seq<(int, int)> {
    v.map_values(|c: (i32, i32)| (c.0 as int, c.1 as int))
}

/// A corner coordinate whose piece cells all fit in an `i32`.
pub open spec fn coord_fits(v: int) -> bool {
    i32::MIN <= v <= i32::MAX - 3
}

/// The piece with its shape turned as the direction word says; any other word
/// leaves it as it is.
pub open spec fn rotated_piece(p: PieceView, direction: Seq<char>) -> PieceView {
    let mask = match rotation_named(direction) {
        Some(Rotation::Clockwise) => rotated_clockwise(p.shape.mask),
        Some(Rotation::CounterClockwise) => rotated_anti_clockwise(p.shape.mask),
        None => p.shape.mask,
    };
    PieceView { shape: ShapeView { name: p.shape.name, mask }, pos: p.pos }
}

pub open spec fn moved_piece(p: PieceView, step: (int, int)) -> PieceView {
    PieceView { shape: p.shape, pos: (p.pos.0 + step.0, p.pos.1 + step.1) }
}

/// Every cell moved by `s`.
pub open spec fn shifted(cells: Seq<(int, int)>, s: (int, int)) -> Seq<(int, int)> {
    cells.map_values(|c: (int, int)| (c.0 + s.0, c.1 + s.1))
}

proof fn lemma_row_cells_shift(m: Seq<Seq<bool>>, pos: (int, int), s: (int, int), i: int, n: int)
    ensures
        row_cells(m, (pos.0 + s.0, pos.1 + s.1), i, n) == shifted(row_cells(m, pos, i, n), s),
    decreases n,
{
    if n <= 0 {
        assert(shifted(row_cells(m, pos, i, n), s) =~= Seq::empty());
    } else {
        lemma_row_cells_shift(m, pos, s, i, n - 1);
        let rest = row_cells(m, pos, i, n - 1);
        assert(shifted(rest.push((pos.0 + i, pos.1 + n - 1)), s) =~= shifted(rest, s).push(
            (pos.0 + s.0 + i, pos.1 + s.1 + n - 1),
        ));
    }
}

proof fn lemma_cells_upto_shift(m: Seq<Seq<bool>>, pos: (int, int), s: (int, int), n: int)
    ensures
        mask_cells_upto(m, (pos.0 + s.0, pos.1 + s.1), n) == shifted(mask_cells_upto(m, pos, n), s),
    decreases n,
{
    if n <= 0 {
        assert(shifted(mask_cells_upto(m, pos, n), s) =~= Seq::empty());
    } else {
        lemma_cells_upto_shift(m, pos, s, n - 1);
        lemma_row_cells_shift(m, pos, s, n - 1, SHAPE_SIZE as int);
        let a = mask_cells_upto(m, pos, n - 1);
        let b = row_cells(m, pos, n - 1, SHAPE_SIZE as int);
        assert(shifted(a + b, s) =~= shifted(a, s) + shifted(b, s));
    }
}

/// Moving a piece moves each of its cells by the same step.
pub proof fn lemma_cells_shift(m: Seq<Seq<bool>>, pos: (int, int), s: (int, int))
    ensures
        mask_cells(m, (pos.0 + s.0, pos.1 + s.1)) == shifted(mask_cells(m, pos), s),
{
    lemma_cells_upto_shift(m, pos, s, SHAPE_SIZE as int);
}

proof fn lemma_row_cells_near(m: Seq<Seq<bool>>, pos: (int, int), i: int, n: int)
    requires
        n <= SHAPE_SIZE,
    ensures
        forall|k: int|
            0 <= k < row_cells(m, pos, i, n).len() ==> (#[trigger] row_cells(m, pos, i, n)[k]).0 == pos.0 + i
                && pos.1 <= row_cells(m, pos, i, n)[k].1 < pos.1 + SHAPE_SIZE,
    decreases n,
{
    if n > 0 {
        lemma_row_cells_near(m, pos, i, n - 1);
        let rest = row_cells(m, pos, i, n - 1);
        let all = row_cells(m, pos, i, n);
        assert forall|k: int| 0 <= k < all.len() implies (#[trigger] all[k]).0 == pos.0 + i && pos.1
            <= all[k].1 < pos.1 + SHAPE_SIZE by {
            if k < rest.len() {
                assert(all[k] == rest[k]);
            }
        }
    }
}

proof fn lemma_cells_upto_near(m: Seq<Seq<bool>>, pos: (int, int), n: int)
    requires
        n <= SHAPE_SIZE,
    ensures
        forall|k: int|
            0 <= k < mask_cells_upto(m, pos, n).len() ==> pos.0 <= (#[trigger] mask_cells_upto(m, pos, n)[k]).0
                < pos.0 + SHAPE_SIZE && pos.1 <= mask_cells_upto(m, pos, n)[k].1 < pos.1 + SHAPE_SIZE,
    decreases n,
{
    if n > 0 {
        lemma_cells_upto_near(m, pos, n - 1);
        lemma_row_cells_near(m, pos, n - 1, SHAPE_SIZE as int);
        let a = mask_cells_upto(m, pos, n - 1);
        let b = row_cells(m, pos, n - 1, SHAPE_SIZE as int);
        assert forall|k: int| 0 <= k < (a + b).len() implies pos.0 <= (#[trigger] (a + b)[k]).0 < pos.0
            + SHAPE_SIZE && pos.1 <= (a + b)[k].1 < pos.1 + SHAPE_SIZE by {
            if k >= a.len() {
                assert((a + b)[k] == b[k - a.len()]);
            }
        }
    }
}

/// The cells of a piece lie in the 4x4 square at its corner.
pub proof fn lemma_cells_near(m: Seq<Seq<bool>>, pos: (int, int))
    ensures
        forall|k: int|
            0 <= k < mask_cells(m, pos).len() ==> pos.0 <= (#[trigger] mask_cells(m, pos)[k]).0 < pos.0
                + SHAPE_SIZE && pos.1 <= mask_cells(m, pos)[k].1 < pos.1 + SHAPE_SIZE,
{
    lemma_cells_upto_near(m, pos, SHAPE_SIZE as int);
}

proof fn lemma_row_cells_contains(m: Seq<Seq<bool>>, pos: (int, int), i: int, n: int, j: int)
    requires
        0 <= j < n,
        m[i][j],
    ensures
        row_cells(m, pos, i, n).contains((pos.0 + i, pos.1 + j)),
    decreases n,
{
    let rest = row_cells(m, pos, i, n - 1);
    if j < n - 1 {
        lemma_row_cells_contains(m, pos, i, n - 1, j);
        let k = choose|k: int| 0 <= k < rest.len() && rest[k] == (pos.0 + i, pos.1 + j);
        assert(row_cells(m, pos, i, n)[k] == (pos.0 + i, pos.1 + j));
    } else {
        assert(row_cells(m, pos, i, n)[rest.len() as int] == (pos.0 + i, pos.1 + j));
    }
}

proof fn lemma_cells_upto_contains(m: Seq<Seq<bool>>, pos: (int, int), n: int, i: int, j: int)
    requires
        0 <= i < n,
        0 <= j < SHAPE_SIZE,
        m[i][j],
    ensures
        mask_cells_upto(m, pos, n).contains((pos.0 + i, pos.1 + j)),
    decreases n,
{
    let a = mask_cells_upto(m, pos, n - 1);
    let b = row_cells(m, pos, n - 1, SHAPE_SIZE as int);
    if i < n - 1 {
        lemma_cells_upto_contains(m, pos, n - 1, i, j);
        let k = choose|k: int| 0 <= k < a.len() && a[k] == (pos.0 + i, pos.1 + j);
        assert((a + b)[k] == (pos.0 + i, pos.1 + j));
    } else {
        lemma_row_cells_contains(m, pos, i, SHAPE_SIZE as int, j);
        let k = choose|k: int| 0 <= k < b.len() && b[k] == (pos.0 + i, pos.1 + j);
        assert((a + b)[a.len() + k] == (pos.0 + i, pos.1 + j));
    }
}

proof fn lemma_grid_to_mask(s: TetrominoShape)
    requires
        grid_has_cell(s.shape),
    ensures
        mask_nonempty(s@.mask),
        s@.name == s.name,
{
    let (i, j) = choose|i: int, j: int| 0 <= i < SHAPE_SIZE && 0 <= j < SHAPE_SIZE && #[trigger] s.shape[i][j];
    assert(s@.mask[i][j]);
}

/// A shape placed on the board, with the list of board cells it occupies
/// kept up to date.
pub struct Tetromino {
    pos: (i32, i32),
    shape: TetrominoShape,
    occupied_positions: Vec<(i32, i32)>,
}

impl View for Tetromino {
    type V = PieceView;

    closed spec fn view(&self) -> PieceView {
        PieceView { shape: self.shape@, pos: (self.pos.0 as int, self.pos.1 as int) }
    }
}

impl Tetromino {
    pub closed spec fn wf(&self) -> bool {
        &&& coord_fits(self.pos.0 as int)
        &&& coord_fits(self.pos.1 as int)
        &&& as_points(self.occupied_positions@) == piece_cells(self@)
        &&& mask_nonempty(self.shape@.mask)
        &&& is_shape_name(self.shape@.name)
    }

    pub proof fn lemma_wf(&self)
        requires
            self.wf(),
        ensures
            coord_fits(self@.pos.0),
            coord_fits(self@.pos.1),
            is_mask(self@.shape.mask),
            is_shape_name(self@.shape.name),
            piece_cells(self@).len() > 0,
            forall|k: int|
                0 <= k < piece_cells(self@).len() ==> self@.pos.0 <= (#[trigger] piece_cells(self@)[k]).0
                    < self@.pos.0 + SHAPE_SIZE && self@.pos.1 <= piece_cells(self@)[k].1 < self@.pos.1
                    + SHAPE_SIZE,
    {
        let m = self@.shape.mask;
        let (i, j) = choose|i: int, j: int| 0 <= i < SHAPE_SIZE && 0 <= j < SHAPE_SIZE && #[trigger] m[i][j];
        lemma_cells_upto_contains(m, self@.pos, SHAPE_SIZE as int, i, j);
        lemma_cells_upto_near(m, self@.pos, SHAPE_SIZE as int);
    }

    pub fn new(pos: (i32, i32), shape: TetrominoShape) -> (t: Self)
        requires
            coord_fits(pos.0 as int),
            coord_fits(pos.1 as int),
        ensures
            t.wf(),
            t@ == (PieceView { shape: shape@, pos: (pos.0 as int, pos.1 as int) }),
    {
        proof {
            use_type_invariant(&shape);
            lemma_grid_to_mask(shape);
        }
        let mut tetromino = Tetromino { pos, shape, occupied_positions: Vec::new() };
        tetromino.set_occupied_positions();
        tetromino
    }

    pub fn get_shape_name(&self) -> (c: char)
        ensures
            c == self@.shape.name,
    {
        self.shape.name
    }

    pub fn get_shape(&self) -> (s: TetrominoShape)
        ensures
            s@ == self@.shape,
    {
        self.shape
    }

    pub fn get_position(&self) -> (p: (i32, i32))
        ensures
            p.0 == self@.pos.0,
            p.1 == self@.pos.1,
    {
        self.pos
    }

    /// The occupied board cells, in row-major order of the mask.
    pub fn get_occupied_positions(&self) -> (v: &Vec<(i32, i32)>)
        requires
            self.wf(),
        ensures
            as_points(v@) == piece_cells(self@),
    {
        &self.occupied_positions
    }

    /// Turns the shape by a quarter turn, `"clockwise"` or `"counter-clockwise"`;
    /// the position stays where it is. Any other word changes nothing.
    pub fn rotate(&mut self, direction: &str)
        requires
            old(self).wf(),
        ensures
            final(self).wf(),
            final(self)@ == rotated_piece(old(self)@, direction@),
    {
        match parse_rotation(direction) {
            Some(Rotation::Clockwise) => {
                self.shape.rotate_clockwise();
            },
            Some(Rotation::CounterClockwise) => {
                self.shape.rotate_anti_clockwise();
            },
            None => {},
        }
        proof {
            use_type_invariant(&self.shape);
            lemma_grid_to_mask(self.shape);
        }
        self.set_occupied_positions();
    }

    /// Translates the piece by `(rows, columns)`.
    pub fn move_pos(&mut self, step: (i32, i32))
        requires
            old(self).wf(),
            coord_fits(old(self)@.pos.0 + step.0),
            coord_fits(old(self)@.pos.1 + step.1),
        ensures
            final(self).wf(),
            final(self)@ == moved_piece(old(self)@, (step.0 as int, step.1 as int)),
    {
        self.pos = (self.pos.0 + step.0, self.pos.1 + step.1);
        self.set_occupied_positions();
    }

    /// Recomputes the occupied cells from the position and the shape.
    fn set_occupied_positions(&mut self)
        requires
            coord_fits(old(self).pos.0 as int),
            coord_fits(old(self).pos.1 as int),
            mask_nonempty(old(self).shape@.mask),
            is_shape_name(old(self).shape@.name),
        ensures
            final(self).wf(),
            final(self)@ == old(self)@,
            final(self).pos == old(self).pos,
            final(self).shape == old(self).shape,
    {
        let ghost m = self.shape@.mask;
        let ghost pos = (self.pos.0 as int, self.pos.1 as int);
        let mut occupied_positions: Vec<(i32, i32)> = Vec::new();
        for i in 0..SHAPE_SIZE
            invariant
                m == self.shape@.mask,
                pos == (self.pos.0 as int, self.pos.1 as int),
                coord_fits(pos.0),
                coord_fits(pos.1),
                as_points(occupied_positions@) == mask_cells_upto(m, pos, i as int),
        {
            for j in 0..SHAPE_SIZE
                invariant
                    0 <= i < 4,
                    m == self.shape@.mask,
                    pos == (self.pos.0 as int, self.pos.1 as int),
                    coord_fits(pos.0),
                    coord_fits(pos.1),
                    as_points(occupied_positions@) == mask_cells_upto(m, pos, i as int) + row_cells(
                        m,
                        pos,
                        i as int,
                        j as int,
                    ),
            {
                let ghost before = occupied_positions@;
                if self.shape.shape[i][j] {
                    let cell: (i32, i32) = (self.pos.0 + i as i32, self.pos.1 + j as i32);
                    occupied_positions.push(cell);
                    assert(as_points(occupied_positions@) =~= as_points(before).push(
                        (pos.0 + i, pos.1 + j),
                    ));
                }
                assert(m[i as int][j as int] == self.shape.shape[i as int][j as int]);
                assert(mask_cells_upto(m, pos, i as int) + row_cells(m, pos, i as int, j + 1) =~= if m[i as int][j as int] {
                    (mask_cells_upto(m, pos, i as int) + row_cells(m, pos, i as int, j as int)).push(
                        (pos.0 + i, pos.1 + j),
                    )
                } else {
                    mask_cells_upto(m, pos, i as int) + row_cells(m, pos, i as int, j as int)
                });
            }
        }
        self.occupied_positions = occupied_positions;
    }
}

/// Over the seven draws that follow a reshuffle each catalog name comes
/// exactly once: the names drawn are pairwise distinct and cover the catalog.
pub proof fn lemma_bag_fairness(order: Seq<u8>)
    requires
        is_bag_order(order),
    ensures
        window_names(order).no_duplicates(),
        forall|k: int| 0 <= k < N_SHAPES ==> window_names(order).contains(#[trigger] shape_name(k)),
{
    let names = window_names(order);
    assert forall|k: int| 0 <= k < N_SHAPES implies names.contains(#[trigger] shape_name(k)) by {
        assert(order.contains(k as u8));
        let i = choose|i: int| 0 <= i < order.len() && order[i] == k as u8;
        assert(names[i] == shape_name(k));
    }
}

/// Four quarter turns in the same direction give back the mask.
pub proof fn lemma_four_rotations(s: TetrominoShape)
    ensures
        rotated_clockwise(rotated_clockwise(rotated_clockwise(rotated_clockwise(s@.mask)))) == s@.mask,
        rotated_anti_clockwise(rotated_anti_clockwise(rotated_anti_clockwise(rotated_anti_clockwise(s@.mask))))
            == s@.mask,
{
    let m = s@.mask;
    assert(rotated_clockwise(rotated_clockwise(rotated_clockwise(rotated_clockwise(m)))) =~~= m);
    assert(rotated_anti_clockwise(rotated_anti_clockwise(rotated_anti_clockwise(rotated_anti_clockwise(m)))) =~~= m);
}

} // verus!
