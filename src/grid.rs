use vstd::prelude::*;
use crate::position::Position;

verus! {

#[verifier::external_type_specification]
#[verifier::external_body]
#[verifier::reject_recursive_types(T)]
pub struct ExArray2D<T>(array2d::Array2D<T>);

#[verifier::external_type_specification]
#[verifier::external_body]
pub struct ExArray2DError(array2d::Error);

/// The rows of an `Array2D<char>`, top to bottom.
pub uninterp spec fn array_rows(a: array2d::Array2D<char>) -> Seq<Seq<char>>;

/// Relies on `Array2D::from_rows`: it succeeds exactly when all rows have the
/// length of the first, and the array then holds those rows.
#[verifier::external_body]
fn array_from_rows(rows: &[Vec<char>]) -> (r: Result<array2d::Array2D<char>, array2d::Error>)
    ensures
        (r is Ok) == (forall|i: int| 0 <= i < rows@.len() ==> #[trigger] rows@[i]@.len() == rows@[0]@.len()),
        r matches Ok(a) ==> array_rows(a) == rows@.map_values(|v: Vec<char>| v@),
{
    array2d::Array2D::from_rows(rows)
}

/// Relies on `Array2D::num_rows`: the number of rows.
#[verifier::external_body]
fn array_num_rows(a: &array2d::Array2D<char>) -> (r: usize)
    ensures
        r == array_rows(*a).len(),
{
    a.num_rows()
}

/// Relies on `Array2D::num_columns`: every row holds that many elements.
#[verifier::external_body]
fn array_num_columns(a: &array2d::Array2D<char>) -> (r: usize)
    ensures
        forall|i: int| 0 <= i < array_rows(*a).len() ==> #[trigger] array_rows(*a)[i].len() == r,
{
    a.num_columns()
}

/// Relies on `Array2D::get`: the element at (row, column), or `None` when
/// either index is out of bounds.
#[verifier::external_body]
fn array_get(a: &array2d::Array2D<char>, row: usize, column: usize) -> (r: Option<&char>)
    ensures
        r == (if row < array_rows(*a).len() && column < array_rows(*a)[row as int].len() {
            Some(&array_rows(*a)[row as int][column as int])
        } else {
            None
        }),
{
    a.get(row, column)
}

/// A rectangular grid of glyphs, read-only once built.
pub struct Grid {
    cells: array2d::Array2D<char>,
    width: usize,
    height: usize,
}

/// `line` right-padded with blanks to `width` cells.
pub open spec fn padded(line: Seq<char>, width: nat) -> Seq<char> {
    Seq::new(width, |j: int| if j < line.len() { line[j] } else { ' ' })
}

/// The length of the longest line (zero when there are none).
pub open spec fn max_len(lines: Seq<Seq<char>>) -> nat
    decreases lines.len(),
{
    if lines.len() == 0 {
        0
    } else {
        let rest = max_len(lines.drop_last());
        if lines.last().len() > rest { lines.last().len() } else { rest }
    }
}

proof fn lemma_max_len_bounds(lines: Seq<Seq<char>>)
    ensures
        forall|i: int| 0 <= i < lines.len() ==> #[trigger] lines[i].len() <= max_len(lines),
        lines.len() > 0 ==> exists|i: int| 0 <= i < lines.len() && #[trigger] lines[i].len() == max_len(lines),
        lines.len() == 0 ==> max_len(lines) == 0,
    decreases lines.len(),
{
    if lines.len() > 0 {
        lemma_max_len_bounds(lines.drop_last());
        assert forall|i: int| 0 <= i < lines.len() implies #[trigger] lines[i].len() <= max_len(lines) by {
            if i < lines.len() - 1 {
                assert(lines[i] == lines.drop_last()[i]);
            }
        }
        if lines.last().len() <= max_len(lines.drop_last()) && lines.len() > 1 {
            let k = choose|k: int| 0 <= k < lines.drop_last().len() && #[trigger] lines.drop_last()[k].len() == max_len(lines.drop_last());
            assert(lines[k] == lines.drop_last()[k]);
        }
    }
}

impl Grid {
    #[verifier::type_invariant]
    spec fn well_formed(&self) -> bool {
        &&& array_rows(self.cells).len() == self.height
        &&& forall|i: int| 0 <= i < self.height ==> #[trigger] array_rows(self.cells)[i].len() == self.width
    }

    /// The rows of the grid, top to bottom.
    pub closed spec fn rows(&self) -> Seq<Seq<char>> {
        array_rows(self.cells)
    }

    pub closed spec fn spec_width(&self) -> nat {
        self.width as nat
    }

    /// The glyph at `p`, or `None` outside the grid.
    pub open spec fn cell(&self, p: Position) -> Option<char> {
        if p.1 < self.rows().len() && p.0 < self.rows()[p.1 as int].len() {
            Some(self.rows()[p.1 as int][p.0 as int])
        } else {
            None
        }
    }

    /// Builds the grid from lines of glyphs, right-padding each line with
    /// blanks to the length of the longest.
    pub fn from_lines(lines: &Vec<Vec<char>>) -> (g: Grid)
        ensures
            g.spec_width() == max_len(lines@.map_values(|v: Vec<char>| v@)),
            g.rows().len() == lines@.len(),
            forall|i: int| 0 <= i < lines@.len() ==>
                #[trigger] g.rows()[i] == padded(lines@[i]@, g.spec_width()),
    {
        let ghost views = lines@.map_values(|v: Vec<char>| v@);
        let mut width: usize = 0;
        let mut i: usize = 0;
        while i < lines.len()
            invariant
                i <= lines@.len(),
                views == lines@.map_values(|v: Vec<char>| v@),
                width == max_len(views.take(i as int)),
            decreases lines@.len() - i,
        {
            assert(views.take(i as int + 1).drop_last() =~= views.take(i as int));
            if lines[i].len() > width {
                width = lines[i].len();
            }
            i += 1;
        }
        assert(views.take(lines@.len() as int) =~= views);
        let mut rows: Vec<Vec<char>> = Vec::new();
        let mut k: usize = 0;
        proof { lemma_max_len_bounds(views); }
        while k < lines.len()
            invariant
                k <= lines@.len(),
                rows@.len() == k,
                views == lines@.map_values(|v: Vec<char>| v@),
                width == max_len(views),
                forall|i: int| 0 <= i < lines@.len() ==> #[trigger] views[i].len() <= width,
                forall|j: int| 0 <= j < k ==> #[trigger] rows@[j]@ == padded(lines@[j]@, width as nat),
            decreases lines@.len() - k,
        {
            let line = &lines[k];
            let mut row: Vec<char> = Vec::new();
            let mut c: usize = 0;
            assert(views[k as int] == line@);
            while c < width
                invariant
                    c <= width,
                    line@.len() <= width,
                    row@.len() == c,
                    forall|j: int| 0 <= j < c ==> #[trigger] row@[j] == (if j < line@.len() { line@[j] } else { ' ' }),
                decreases width - c,
            {
                if c < line.len() {
                    row.push(line[c]);
                } else {
                    row.push(' ');
                }
                c += 1;
            }
            assert(row@ =~= padded(line@, width as nat));
            rows.push(row);
            k += 1;
        }
        let r = array_from_rows(rows.as_slice());
        match r {
            Ok(cells) => {
                let height = array_num_rows(&cells);
                let w = array_num_columns(&cells);
                proof {
                    assert(array_rows(cells) == rows@.map_values(|v: Vec<char>| v@));
                    if height > 0 {
                        assert(array_rows(cells)[0].len() == w);
                        assert(rows@[0]@.len() == width);
                    }
                }
                let w2 = if height == 0 { width } else { w };
                Grid { cells, width: w2, height }
            },
            Err(_) => {
                proof {
                    assert forall|i: int| 0 <= i < rows@.len() implies #[trigger] rows@[i]@.len() == rows@[0]@.len() by {}
                }
                vstd::pervasive::unreached()
            },
        }
    }

    /// The number of cells in each row.
    pub fn width(&self) -> (r: usize)
        ensures
            r == self.spec_width(),
            forall|i: int| 0 <= i < self.rows().len() ==> #[trigger] self.rows()[i].len() == r,
    {
        proof { use_type_invariant(self); }
        self.width
    }

    /// The number of rows.
    pub fn height(&self) -> (r: usize)
        ensures
            r == self.rows().len(),
    {
        proof { use_type_invariant(self); }
        self.height
    }

    /// The glyph at `p`, or `None` past any edge.
    pub fn get(&self, p: Position) -> (r: Option<char>)
        ensures
            r == self.cell(p),
    {
        match array_get(&self.cells, p.1, p.0) {
            Some(c) => Some(*c),
            None => None,
        }
    }
}

} // verus!
