//! Agreement of the per-box columns in length.

use vstd::prelude::*;

verus! {

/// The per-box columns that must agree in length with the `x` column.
#[derive(Clone, Copy, Debug, PartialEq, Eq, Structural)]
pub enum Column {
    Y,
    Width,
    Height,
    Moved,
}

/// A column whose length differs from that of the `x` column.
#[derive(Clone, Copy, Debug, PartialEq, Eq, Structural)]
pub struct LengthMismatch {
    pub column: Column,
    pub expected: usize,
    pub found: usize,
}

/// The first column, in the order `y`, `width`, `height`, `moved`, whose
/// length is not `x`; `None` when all agree.
pub open spec fn first_mismatch(x: usize, y: usize, width: usize, height: usize, moved: usize)
    -> Option<LengthMismatch>
{
    if y != x {
        Some(LengthMismatch { column: Column::Y, expected: x, found: y })
    } else if width != x {
        Some(LengthMismatch { column: Column::Width, expected: x, found: width })
    } else if height != x {
        Some(LengthMismatch { column: Column::Height, expected: x, found: height })
    } else if moved != x {
        Some(LengthMismatch { column: Column::Moved, expected: x, found: moved })
    } else {
        None
    }
}

/// The number of boxes that five column lengths describe. Columns of
/// unequal length describe no set of boxes and are rejected, naming the
/// first column that disagrees with `x`.
pub fn common_length(x: usize, y: usize, width: usize, height: usize, moved: usize)
    -> (count: Result<usize, LengthMismatch>)
    ensures
        count.is_ok() <==> (y == x && width == x && height == x && moved == x),
        match count {
            Ok(n) => n == x,
            Err(e) => first_mismatch(x, y, width, height, moved) == Some(e),
        },
{
    if y != x {
        Err(LengthMismatch { column: Column::Y, expected: x, found: y })
    } else if width != x {
        Err(LengthMismatch { column: Column::Width, expected: x, found: width })
    } else if height != x {
        Err(LengthMismatch { column: Column::Height, expected: x, found: height })
    } else if moved != x {
        Err(LengthMismatch { column: Column::Moved, expected: x, found: moved })
    } else {
        Ok(x)
    }
}

} // verus!
